//! Main-content extraction.
//!
//! Navigation, advertising, footers and scripts are left out, and what is left is ready for the
//! conversion to Markdown. This is where most of the tokens are saved.

use vstd::prelude::*;

use crate::dom;
use crate::error;
use crate::error::{Error, ErrorModel, document_fits};
use crate::text;

verus! {

/// The content of a page.
#[derive(Debug, Clone)]
pub struct Extracted {
    pub title: String,
    pub byline: Option<String>,
    pub excerpt: Option<String>,
    /// The content as cleaned HTML.
    pub content_html: String,
    /// The content as plain text.
    pub text: String,
}

/// The content of a page, as a mathematical value.
#[verifier::ext_equal]
pub struct ExtractedModel {
    pub title: Seq<char>,
    pub byline: Option<Seq<char>>,
    pub excerpt: Option<Seq<char>>,
    pub content_html: Seq<char>,
    pub text: Seq<char>,
}

impl DeepView for Extracted {
    type V = ExtractedModel;

    open spec fn deep_view(&self) -> ExtractedModel {
        ExtractedModel {
            title: self.title@,
            byline: self.byline.deep_view(),
            excerpt: self.excerpt.deep_view(),
            content_html: self.content_html@,
            text: self.text@,
        }
    }
}

/// What the reader makes of a page at a URL: its content, or an error's words and whether it came
/// from the URL, before anything was read.
pub uninterp spec fn readable(html: Seq<char>, url: Seq<char>) -> Result<
    ExtractedModel,
    (bool, Seq<char>),
>;

/// How many children each node of a document has as the reader sees it, a node before its
/// children.
pub uninterp spec fn reader_child_counts(html: Seq<char>) -> Seq<usize>;

/// `dom_smoothie`'s `Readability::from`, and of its document the root and the root's
/// `NodeRef::descendants_it`, which gives a node before its children: how many
/// `NodeRef::children` each has. Unlike other parsers the reader takes the contents of `noscript`
/// for elements. The result is a function of the text.
#[verifier::external_body]
fn list_reader_child_counts(html: &str) -> (r: Vec<usize>)
    requires
        error::parseable(html@),
    ensures
        r@ == reader_child_counts(html@),
{
    let reader = dom_smoothie::Readability::from(html);
    let root = reader.doc.root();
    std::iter::once(root).chain(root.descendants_it()).map(|n| n.children().len()).collect()
}

/// `dom_smoothie`'s `Readability::new`, with the default configuration, and `Readability::parse`.
/// The result is a function of the arguments. The reader goes down a document one call within
/// another for every level, so the document must not be nested deeply.
#[verifier::external_body]
fn read_article(html: &str, url: &str) -> (r: Result<Extracted, (bool, String)>)
    requires
        error::parseable(html@),
        dom::flat_tree(reader_child_counts(html@)),
    ensures
        match r {
            Ok(e) => readable(html@, url@) == Ok::<ExtractedModel, (bool, Seq<char>)>(
                e.deep_view(),
            ),
            Err(e) => readable(html@, url@) == Err::<ExtractedModel, (bool, Seq<char>)>(
                (e.0, e.1@),
            ),
        },
{
    let cfg = dom_smoothie::Config::default();
    let reader = dom_smoothie::Readability::new(html, Some(url), Some(cfg));
    let article = reader.map_err(|e| (true, e.to_string()))?.parse();
    article.map_err(|e| (false, e.to_string())).map(|a| Extracted {
        title: a.title.to_string(),
        byline: a.byline.map(|b| b.to_string()),
        excerpt: a.excerpt.map(|e| e.to_string()),
        content_html: a.content.to_string(),
        text: a.text_content.to_string(),
    })
}

/// What extracting the main content gives.
pub open spec fn article_of(html: Seq<char>, url: Seq<char>) -> Result<ExtractedModel, ErrorModel> {
    if !error::parseable(html) {
        Err(ErrorModel::DocumentTooLarge)
    } else if !dom::flat_tree(reader_child_counts(html)) {
        Err(ErrorModel::TooDeep)
    } else {
        match readable(html, url) {
            Ok(e) => Ok(e),
            Err((opening, cause)) => if opening {
                Err(ErrorModel::ReaderSetup { cause })
            } else {
                Err(ErrorModel::ReaderParse { cause })
            },
        }
    }
}

/// Extracts the main content of a page. `url` is the page's URL, against which its references are
/// resolved.
pub fn extract(html: &str, url: &str) -> (r: Result<Extracted, Error>)
    ensures
        error::outcome(r) == article_of(html@, url@),
{
    if !document_fits(html) {
        return Err(Error::DocumentTooLarge);
    }
    if !dom::is_flat_tree(&list_reader_child_counts(html)) {
        return Err(Error::TooDeep);
    }
    match read_article(html, url) {
        Ok(e) => Ok(e),
        Err((opening, cause)) => if opening {
            Err(Error::ReaderSetup { cause })
        } else {
            Err(Error::ReaderParse { cause })
        },
    }
}

/// The content of a whole body. `title` is the text of the title element and `body` the HTML
/// inside the body element, where there are such. There is no plain text, so that the source of
/// scripts is not taken for some.
pub open spec fn body_content(
    title: Option<Seq<char>>,
    body: Option<Seq<char>>,
    html: Seq<char>,
) -> ExtractedModel {
    ExtractedModel {
        title: match title {
            Some(t) => text::collapsed(t),
            None => seq![],
        },
        byline: None,
        excerpt: None,
        content_html: stripped(
            match body {
                Some(b) => b,
                None => html,
            },
        ),
        text: seq![],
    }
}

/// Makes the content of a whole body.
pub fn content_of_body(title: Option<&str>, body: Option<&str>, html: &str) -> (r: Extracted)
    ensures
        r.deep_view() == body_content(text::opt(title), text::opt(body), html@),
{
    Extracted {
        title: match title {
            Some(t) => text::collapse_str(t),
            None => String::new(),
        },
        byline: None,
        excerpt: None,
        content_html: match body {
            Some(b) => strip_noise(b),
            None => strip_noise(html),
        },
        text: String::new(),
    }
}

/// The text of the first title element.
pub open spec fn title_text(html: Seq<char>) -> Option<Seq<char>> {
    let found = dom::selected(html, "title"@, seq![]);
    if found.len() == 0 {
        None
    } else {
        Some(found[0].element.text)
    }
}

/// What extracting the whole body gives.
pub open spec fn whole_body_of(html: Seq<char>) -> Result<ExtractedModel, ErrorModel> {
    if !error::parseable(html) {
        Err(ErrorModel::DocumentTooLarge)
    } else {
        Ok(body_content(title_text(html), dom::inner_html(html, "body"@), html))
    }
}

/// Extracts the whole body without its noise elements, and with everything else. It serves where
/// the main content would lose too much: reference pages, landing pages, structured layouts.
pub fn extract_whole_body(html: &str) -> (r: Result<Extracted, Error>)
    ensures
        error::outcome(r) == whole_body_of(html@),
{
    if !document_fits(html) {
        return Err(Error::DocumentTooLarge);
    }
    let attrs: Vec<&'static str> = Vec::new();
    assert(attrs.deep_view() =~= seq![]);
    proof {
        reveal_strlit("title");
        reveal_strlit("body");
    }
    let titles = dom::select(html, "title", &attrs);
    let title: Option<&str> = if titles.len() == 0 {
        None
    } else {
        assert(titles.deep_view()[0] == titles@[0].deep_view());
        Some(titles[0].element.text.as_str())
    };
    let body = dom::select_inner(html, "body");
    let content = match &body {
        Some(b) => content_of_body(title, Some(b.as_str()), html),
        None => content_of_body(title, None, html),
    };
    Ok(content)
}

// ---------------------------------------------------------------------------------------------
// Noise
// ---------------------------------------------------------------------------------------------


/// The elements whose contents are of no value to a reader.
pub open spec fn noise_tags() -> Seq<Seq<char>> {
    seq!["script"@, "style"@, "noscript"@, "template"@]
}

/// The character `c` may follow the name in an opening tag.
pub open spec fn ends_name(c: char) -> bool {
    text::is_ws(c) || c == '>' || c == '/'
}

/// An opening tag of that name stands at position `i`, also one that the text breaks off
/// behind its name. `<tablet` opens no `table`.
pub open spec fn opens_at(lower: Seq<char>, tag: Seq<char>, i: int) -> bool {
    let needle = "<"@ + tag;
    &&& text::occurs_at(lower, needle, i)
    &&& i + needle.len() == lower.len() || ends_name(lower[i + needle.len()])
}

/// The number of the first noise tag that opens at position `i`; 4 where none does.
pub open spec fn noise_at(lower: Seq<char>, i: int) -> int {
    if opens_at(lower, noise_tags()[0], i) {
        0
    } else if opens_at(lower, noise_tags()[1], i) {
        1
    } else if opens_at(lower, noise_tags()[2], i) {
        2
    } else if opens_at(lower, noise_tags()[3], i) {
        3
    } else {
        4
    }
}

/// The first position from `i` on at which a noise element opens; the length of the text where
/// none does.
pub open spec fn next_noise(lower: Seq<char>, i: int) -> int
    decreases lower.len() - i,
{
    if i < 0 || i >= lower.len() {
        lower.len() as int
    } else if noise_at(lower, i) < 4 {
        i
    } else {
        next_noise(lower, i + 1)
    }
}

/// What `html` has to say from position `i` on when its noise elements are taken out, each with
/// its contents and its closing tag. A noise element that is never closed swallows the rest.
/// `lower` is `html` in small letters.
pub open spec fn quiet(html: Seq<char>, lower: Seq<char>, i: int) -> Seq<char>
    decreases html.len() - i,
{
    if i < 0 || i >= html.len() || lower.len() != html.len() {
        seq![]
    } else {
        let pos = next_noise(lower, i);
        if pos >= html.len() || pos < i {
            html.skip(i)
        } else {
            let close = "</"@ + noise_tags()[noise_at(lower, pos)];
            html.subrange(i, pos) + match text::next_at(lower, close, pos) {
                Some(c) => {
                    let gt = c + text::until(lower.skip(c), '>');
                    if pos <= gt < html.len() {
                        quiet(html, lower, gt + 1)
                    } else {
                        seq![]
                    }
                },
                None => seq![],
            }
        }
    }
}

/// `html` without its noise elements.
pub open spec fn stripped(html: Seq<char>) -> Seq<char> {
    quiet(html, text::lowered(html), 0)
}

/// Removes noise elements (and their contents) from an HTML fragment: a scan for tags, which
/// serves for elements that never hold one of their own kind.
pub fn strip_noise(html: &str) -> (r: String)
    ensures
        r@ == stripped(html@),
{
    let chars = text::to_chars(html);
    let lower = text::to_lower(chars.as_slice());
    let mut out: Vec<char> = Vec::new();
    let mut i: usize = 0;
    assert(out@ + quiet(html@, lower@, 0) =~= stripped(html@));
    while i < chars.len()
        invariant
            i <= chars@.len(),
            chars@ == html@,
            lower@ == text::lowered(html@),
            lower@.len() == chars@.len(),
            out@ + quiet(html@, lower@, i as int) == stripped(html@),
        decreases chars@.len() - i,
    {
        let ghost before = out@;
        let (pos, which) = find_noise(lower.as_slice(), i);
        if pos == chars.len() {
            text::extend_chars(&mut out, vstd::slice::slice_subrange(chars.as_slice(), i, pos));
            assert(chars@.subrange(i as int, pos as int) == html@.skip(i as int));
            return text::from_chars(out.as_slice());
        }
        let kept = vstd::slice::slice_subrange(chars.as_slice(), i, pos);
        text::extend_chars(&mut out, kept);
        let close = closing(which);
        match text::find(lower.as_slice(), close.as_slice(), pos) {
            Some(c) => {
                let gt = text::position(lower.as_slice(), '>', c);
                if gt < chars.len() {
                    assert(before + (kept@ + quiet(html@, lower@, gt + 1)) =~= out@ + quiet(
                        html@,
                        lower@,
                        gt + 1,
                    ));
                    i = gt + 1;
                } else {
                    assert(quiet(html@, lower@, gt + 1) =~= seq![]);
                    assert(before + (kept@ + seq![]) =~= out@);
                    return text::from_chars(out.as_slice());
                }
            },
            None => {
                assert(before + (kept@ + seq![]) =~= out@);
                return text::from_chars(out.as_slice());
            },
        }
    }
    assert(out@ + seq![] =~= out@);
    text::from_chars(out.as_slice())
}

fn tag_name(which: usize) -> (r: &'static str)
    requires
        which < 4,
    ensures
        r@ == noise_tags()[which as int],
{
    if which == 0 {
        "script"
    } else if which == 1 {
        "style"
    } else if which == 2 {
        "noscript"
    } else {
        "template"
    }
}

fn closing(which: usize) -> (r: Vec<char>)
    requires
        which < 4,
    ensures
        r@ == "</"@ + noise_tags()[which as int],
{
    let mut s = String::new();
    s.push_str("</");
    s.push_str(tag_name(which));
    assert(s@ =~= "</"@ + noise_tags()[which as int]);
    text::to_chars(s.as_str())
}

fn find_noise(lower: &[char], from: usize) -> (r: (usize, usize))
    requires
        from <= lower@.len(),
    ensures
        from <= r.0 <= lower@.len(),
        r.0 == next_noise(lower@, from as int),
        r.0 < lower@.len() ==> r.1 == noise_at(lower@, r.0 as int) && r.1 < 4,
{
    let mut i: usize = from;
    while i < lower.len()
        invariant
            from <= i <= lower@.len(),
            next_noise(lower@, i as int) == next_noise(lower@, from as int),
        decreases lower@.len() - i,
    {
        if lower[i] == '<' {
            if opens(lower, 0, i) {
                return (i, 0);
            }
            if opens(lower, 1, i) {
                return (i, 1);
            }
            if opens(lower, 2, i) {
                return (i, 2);
            }
            if opens(lower, 3, i) {
                return (i, 3);
            }
        } else {
            proof {
                lemma_opens_with_angle(lower@, noise_tags()[0], i as int);
                lemma_opens_with_angle(lower@, noise_tags()[1], i as int);
                lemma_opens_with_angle(lower@, noise_tags()[2], i as int);
                lemma_opens_with_angle(lower@, noise_tags()[3], i as int);
            }
        }
        i = i + 1;
    }
    (i, 4)
}

proof fn lemma_opens_with_angle(lower: Seq<char>, tag: Seq<char>, i: int)
    ensures
        opens_at(lower, tag, i) ==> lower[i] == '<',
{
    reveal_strlit("<");
    let needle = "<"@ + tag;
    if opens_at(lower, tag, i) {
        assert(lower.subrange(i, i + needle.len())[0] == needle[0]);
    }
}

fn opens(lower: &[char], which: usize, i: usize) -> (r: bool)
    requires
        which < 4,
        i < lower@.len(),
    ensures
        r == opens_at(lower@, noise_tags()[which as int], i as int),
{
    let mut s = String::new();
    s.push_str("<");
    s.push_str(tag_name(which));
    assert(s@ =~= "<"@ + noise_tags()[which as int]);
    let needle = text::to_chars(s.as_str());
    let len: usize = lower.len();
    if !text::matches_at(lower, needle.as_slice(), i) {
        return false;
    }
    let after: usize = i + needle.len();
    if after == len {
        return true;
    }
    let c = lower[after];
    text::whitespace(c) || c == '>' || c == '/'
}

/// A text in which no noise element opens is left as it is.
pub proof fn law_quiet_text_is_unchanged(html: Seq<char>)
    requires
        forall|i: int| 0 <= i < html.len() ==> #[trigger] noise_at(text::lowered(html), i) == 4,
    ensures
        stripped(html) == html,
{
    let lower = text::lowered(html);
    lemma_no_noise(lower, 0);
    assert(html.skip(0) == html);
    if html.len() == 0 {
        assert(stripped(html) =~= html);
    }
}

proof fn lemma_no_noise(lower: Seq<char>, i: int)
    requires
        0 <= i,
        forall|k: int| 0 <= k < lower.len() ==> #[trigger] noise_at(lower, k) == 4,
    ensures
        next_noise(lower, i) == lower.len(),
    decreases lower.len() - i,
{
    if i < lower.len() {
        assert(noise_at(lower, i) == 4);
        lemma_no_noise(lower, i + 1);
    }
}

/// An element of that name opens at the position: its name stands behind an angle bracket, and
/// behind that white space, the end of the tag or the end of the text.
pub open spec fn element_opens(lower: Seq<char>, tag: Seq<char>, i: int) -> bool {
    &&& text::occurs_at(lower, seq!['<'] + tag, i)
    &&& i + 1 + tag.len() == lower.len() || lower[i + 1 + tag.len()] == '>' || lower[i + 1
        + tag.len()] == '/' || text::is_ws(lower[i + 1 + tag.len()])
}

/// A script, a style sheet, a fallback for missing scripts or a template opens at the position.
pub open spec fn clutter_opens(lower: Seq<char>, i: int) -> bool {
    ||| element_opens(lower, "script"@, i)
    ||| element_opens(lower, "style"@, i)
    ||| element_opens(lower, "noscript"@, i)
    ||| element_opens(lower, "template"@, i)
}

/// Scripts, style sheets, fallbacks for missing scripts and templates go, from the start of their
/// tag to the end of their closing tag, in whatever case they are written. What stands before is
/// kept as it is, and what stands behind is treated in the same way.
pub proof fn law_clutter_goes_with_its_contents(
    html: Seq<char>,
    pos: int,
    tag: Seq<char>,
    closing_tag: Seq<char>,
    c: int,
    gt: int,
)
    requires
        tag == "script"@ || tag == "style"@ || tag == "noscript"@ || tag == "template"@,
        closing_tag == seq!['<', '/'] + tag,
        0 <= pos <= c <= gt < html.len(),
        element_opens(text::lowered(html), tag, pos),
        forall|i: int| 0 <= i < pos ==> !#[trigger] clutter_opens(text::lowered(html), i),
        text::occurs_at(text::lowered(html), closing_tag, c),
        forall|j: int|
            pos <= j < c ==> !#[trigger] text::occurs_at(text::lowered(html), closing_tag, j),
        html[gt] == '>',
        forall|j: int| c <= j < gt ==> #[trigger] html[j] != '>',
    ensures
        stripped(html) == html.take(pos) + stripped(html.skip(gt + 1)),
{
    let lower = text::lowered(html);
    lemma_first_clutter(html, pos, tag);
    reveal_strlit("</");
    assert("</"@ =~= seq!['<', '/']);
    text::lemma_next_at(lower, closing_tag, pos);
    assert(html.subrange(0, pos) =~= html.take(pos));
    assert(text::next_at(lower, closing_tag, pos) == Some(c));
    let tail = lower.skip(c);
    assert forall|j: int| 0 <= j < gt - c implies #[trigger] tail[j] != '>' by {
        assert(tail[j] == text::lower_char(html[c + j]));
        assert(html[c + j] != '>');
    }
    assert(tail[gt - c] == text::lower_char(html[gt]));
    text::lemma_until_is(tail, '>', (gt - c) as nat);
    lemma_quiet_shift(html, lower, gt + 1, gt + 1);
    assert(text::lowered(html.skip(gt + 1)) =~= lower.skip(gt + 1));
}

/// Such an element that is never closed takes the rest with it.
pub proof fn law_open_clutter_takes_the_rest(
    html: Seq<char>,
    pos: int,
    tag: Seq<char>,
    closing_tag: Seq<char>,
)
    requires
        tag == "script"@ || tag == "style"@ || tag == "noscript"@ || tag == "template"@,
        closing_tag == seq!['<', '/'] + tag,
        0 <= pos < html.len(),
        element_opens(text::lowered(html), tag, pos),
        forall|i: int| 0 <= i < pos ==> !#[trigger] clutter_opens(text::lowered(html), i),
        forall|j: int|
            pos <= j < html.len() ==> !#[trigger] text::occurs_at(
                text::lowered(html),
                closing_tag,
                j,
            ),
    ensures
        stripped(html) == html.take(pos),
{
    let lower = text::lowered(html);
    lemma_first_clutter(html, pos, tag);
    reveal_strlit("</");
    assert("</"@ =~= seq!['<', '/']);
    text::lemma_next_at(lower, closing_tag, pos);
    assert(html.subrange(0, pos) =~= html.take(pos));
    assert(html.take(pos) + seq![] =~= html.take(pos));
}

proof fn lemma_first_clutter(html: Seq<char>, pos: int, tag: Seq<char>)
    requires
        tag == "script"@ || tag == "style"@ || tag == "noscript"@ || tag == "template"@,
        0 <= pos < html.len(),
        element_opens(text::lowered(html), tag, pos),
        forall|i: int| 0 <= i < pos ==> !#[trigger] clutter_opens(text::lowered(html), i),
    ensures
        next_noise(text::lowered(html), 0) == pos,
        noise_at(text::lowered(html), pos) < 4,
        noise_tags()[noise_at(text::lowered(html), pos)] == tag,
{
    let lower = text::lowered(html);
    assert forall|i: int| 0 <= i < pos implies #[trigger] noise_at(lower, i) == 4 by {
        lemma_clutter(lower, i);
        assert(!clutter_opens(lower, i));
    }
    lemma_which(lower, tag, pos);
    lemma_next_noise_is(lower, 0, pos);
}

/// A text without such elements is left as it is.
pub proof fn law_everything_else_is_kept(html: Seq<char>)
    requires
        forall|i: int| 0 <= i < html.len() ==> !#[trigger] clutter_opens(text::lowered(html), i),
    ensures
        stripped(html) == html,
{
    let lower = text::lowered(html);
    assert forall|i: int| 0 <= i < html.len() implies #[trigger] noise_at(lower, i) == 4 by {
        lemma_clutter(lower, i);
        assert(!clutter_opens(lower, i));
    }
    law_quiet_text_is_unchanged(html);
}

proof fn lemma_clutter(lower: Seq<char>, i: int)
    ensures
        noise_at(lower, i) < 4 <==> clutter_opens(lower, i),
        noise_at(lower, i) <= 4,
        noise_at(lower, i) >= 0,
        opens_at(lower, "script"@, i) == element_opens(lower, "script"@, i),
        opens_at(lower, "style"@, i) == element_opens(lower, "style"@, i),
        opens_at(lower, "noscript"@, i) == element_opens(lower, "noscript"@, i),
        opens_at(lower, "template"@, i) == element_opens(lower, "template"@, i),
{
    reveal_strlit("<");
    assert("<"@ =~= seq!['<']);
}

proof fn lemma_which(lower: Seq<char>, tag: Seq<char>, i: int)
    requires
        tag == "script"@ || tag == "style"@ || tag == "noscript"@ || tag == "template"@,
        element_opens(lower, tag, i),
    ensures
        noise_at(lower, i) < 4,
        noise_tags()[noise_at(lower, i)] == tag,
{
    lemma_clutter(lower, i);
    reveal_strlit("script");
    reveal_strlit("style");
    reveal_strlit("noscript");
    reveal_strlit("template");
    let other = noise_tags()[noise_at(lower, i)];
    assert(element_opens(lower, other, i));
    let a = seq!['<'] + tag;
    let b = seq!['<'] + other;
    assert(lower.subrange(i, i + a.len()) == a);
    assert(lower.subrange(i, i + b.len()) == b);
    assert(lower[i + 1] == a[1] && lower[i + 1] == b[1]);
    assert(lower[i + 2] == a[2] && lower[i + 2] == b[2]);
    assert(a[1] == tag[0] && b[1] == other[0]);
    assert(a[2] == tag[1] && b[2] == other[1]);
}

proof fn lemma_next_noise_is(lower: Seq<char>, from: int, pos: int)
    requires
        0 <= from <= pos < lower.len(),
        noise_at(lower, pos) < 4,
        forall|i: int| from <= i < pos ==> #[trigger] noise_at(lower, i) == 4,
    ensures
        next_noise(lower, from) == pos,
    decreases pos - from,
{
    if from < pos {
        assert(noise_at(lower, from) == 4);
        lemma_next_noise_is(lower, from + 1, pos);
    }
}

proof fn lemma_occurs_shift(s: Seq<char>, pat: Seq<char>, k: int, i: int)
    requires
        0 <= k <= i,
        k <= s.len(),
    ensures
        text::occurs_at(s.skip(k), pat, i - k) == text::occurs_at(s, pat, i),
{
    if i + pat.len() <= s.len() {
        assert(s.skip(k).subrange(i - k, i - k + pat.len()) =~= s.subrange(i, i + pat.len()));
    }
}

proof fn lemma_noise_shift(lower: Seq<char>, k: int, i: int)
    requires
        0 <= k <= i,
        k <= lower.len(),
    ensures
        noise_at(lower.skip(k), i - k) == noise_at(lower, i),
{
    lemma_occurs_shift(lower, "<"@ + noise_tags()[0], k, i);
    lemma_occurs_shift(lower, "<"@ + noise_tags()[1], k, i);
    lemma_occurs_shift(lower, "<"@ + noise_tags()[2], k, i);
    lemma_occurs_shift(lower, "<"@ + noise_tags()[3], k, i);
}

proof fn lemma_next_noise_shift(lower: Seq<char>, k: int, i: int)
    requires
        0 <= k <= i,
        k <= lower.len(),
    ensures
        i <= lower.len() ==> next_noise(lower.skip(k), i - k) == next_noise(lower, i) - k,
        i <= lower.len() ==> i <= next_noise(lower, i) <= lower.len(),
        next_noise(lower, i) < lower.len() ==> noise_at(lower, next_noise(lower, i)) < 4,
    decreases lower.len() - i,
{
    if i < lower.len() {
        lemma_noise_shift(lower, k, i);
        lemma_next_noise_shift(lower, k, i + 1);
    }
}

/// Going on from a position is the same as starting with what stands there.
proof fn lemma_quiet_shift(html: Seq<char>, lower: Seq<char>, k: int, i: int)
    requires
        0 <= k <= i,
        k <= html.len(),
        lower.len() == html.len(),
    ensures
        quiet(html, lower, i) == quiet(html.skip(k), lower.skip(k), i - k),
    decreases html.len() - i,
{
    if i < html.len() {
        lemma_next_noise_shift(lower, k, i);
        let pos = next_noise(lower, i);
        if pos >= html.len() {
            assert(html.skip(k).skip(i - k) =~= html.skip(i));
        } else {
            let which = noise_at(lower, pos);
            lemma_noise_shift(lower, k, pos);
            let close = "</"@ + noise_tags()[which];
            text::lemma_next_at_skip(lower, close, k, pos);
            text::lemma_next_at(lower, close, pos);
            assert(html.skip(k).subrange(i - k, pos - k) =~= html.subrange(i, pos));
            match text::next_at(lower, close, pos) {
                Some(c) => {
                    assert(lower.skip(k).skip(c - k) =~= lower.skip(c));
                    let gt = c + text::until(lower.skip(c), '>');
                    if pos <= gt < html.len() {
                        lemma_quiet_shift(html, lower, k, gt + 1);
                    }
                },
                None => {},
            }
        }
    }
}

/// The whole body has the title of the page, with single spaces, and the HTML inside the body, or
/// all of it where there is no body, without clutter. It has no other text, no author and no
/// excerpt.
pub proof fn law_the_whole_body_is_kept(html: Seq<char>)
    requires
        error::parseable(html),
    ensures
        ({
            let titles = dom::selected(html, "title"@, seq![]);
            let content = whole_body_of(html)->Ok_0;
            &&& whole_body_of(html) is Ok
            &&& titles.len() == 0 ==> content.title.len() == 0
            &&& titles.len() > 0 ==> content.title == text::collapsed(titles[0].element.text)
            &&& content.byline is None
            &&& content.excerpt is None
            &&& content.text.len() == 0
            &&& dom::inner_html(html, "body"@) matches Some(body) ==> content.content_html
                == stripped(body)
            &&& dom::inner_html(html, "body"@) is None ==> content.content_html == stripped(html)
        }),
{
}

/// The main content of a page is what the reader makes of it, and an error of the reader is told
/// apart by where it came from.
pub proof fn law_the_reader_is_believed(html: Seq<char>, url: Seq<char>)
    ensures
        text::byte_len(html) > 0x4000_0000 ==> article_of(html, url) == Err::<
            ExtractedModel,
            ErrorModel,
        >(ErrorModel::DocumentTooLarge) && whole_body_of(html) == Err::<
            ExtractedModel,
            ErrorModel,
        >(ErrorModel::DocumentTooLarge),
        text::byte_len(html) <= 0x4000_0000 && dom::flat_tree(reader_child_counts(html))
            ==> match readable(html, url) {
            Ok(e) => article_of(html, url) == Ok::<ExtractedModel, ErrorModel>(e),
            Err((true, cause)) => article_of(html, url) == Err::<ExtractedModel, ErrorModel>(
                ErrorModel::ReaderSetup { cause },
            ),
            Err((false, cause)) => article_of(html, url) == Err::<ExtractedModel, ErrorModel>(
                ErrorModel::ReaderParse { cause },
            ),
        },
{
}

/// The mathematical value of content shows every part of it.
pub proof fn law_views_show_every_part(e: Extracted)
    ensures
        e.deep_view().title == e.title@ && e.deep_view().byline == e.byline.deep_view()
            && e.deep_view().excerpt == e.excerpt.deep_view() && e.deep_view().content_html
            == e.content_html@ && e.deep_view().text == e.text@,
{
}

} // verus!
