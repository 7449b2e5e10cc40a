//! HTML to Markdown, and tidying the Markdown.
//!
//! Markdown is far cheaper than HTML in tokens. What the conversion leaves of blank lines and
//! alignment padding is taken out here, since it costs tokens and says nothing.

use std::rc::Rc;

use vstd::prelude::*;

use crate::dom;
use crate::error;
use crate::error::{Error, ErrorModel, document_fits};
use crate::text;

verus! {

/// The Markdown that `htmd` makes of an HTML text, or the words of its error.
pub uninterp spec fn markdown_of(html: Seq<char>) -> Result<Seq<char>, Seq<char>>;

/// `htmd`'s `Node`: a node of the tree that a conversion goes down.
#[verifier::external_type_specification]
#[verifier::external_body]
pub struct ExNode(htmd::Node);

/// How many children each node has of the tree below a node, the node itself first and every node
/// before its children.
pub uninterp spec fn node_counts(node: htmd::Node) -> Seq<usize>;

/// How many children each node has of the tree that a conversion of `html` goes down, a node
/// before its children; nothing where there is no tree.
pub uninterp spec fn converter_counts(html: Seq<char>) -> Seq<usize>;

/// A node, and the root of the tree that it belongs to. When a root goes, the nodes below lose
/// their children, so it is kept as long as the node.
struct Place {
    root: Rc<htmd::Node>,
    node: Rc<htmd::Node>,
}

impl Place {
    /// How many children each node has of the tree below the node.
    spec fn counts(&self) -> Seq<usize> {
        node_counts(*self.node)
    }
}

/// `htmd`'s `HtmlToMarkdown::html_to_tree`, with the default options: the root of the tree for
/// `html`, or nothing for an error. The result is a function of `html`.
#[verifier::external_body]
fn html_to_tree(html: &str) -> (r: Option<Place>)
    requires
        error::parseable(html@),
    ensures
        match r {
            Some(p) => node_counts(*p.node) == converter_counts(html@),
            None => converter_counts(html@).len() == 0,
        },
{
    let root = htmd::HtmlToMarkdown::new().html_to_tree(html).ok()?;
    Some(Place { node: root.clone(), root })
}

/// The counts of the nodes and of all below them, one node behind the other.
spec fn counts_of_all(places: Seq<Place>) -> Seq<usize>
    decreases places.len(),
{
    if places.len() == 0 {
        seq![]
    } else {
        places[0].counts() + counts_of_all(places.drop_first())
    }
}

/// The field `children` of `htmd`'s `Node`: the nodes right below a node. The tree below the node
/// is the node itself, and behind it the trees below these.
#[verifier::external_body]
fn children_of(p: &Place) -> (r: Vec<Place>)
    ensures
        node_counts(*p.node) == seq![r@.len() as usize] + counts_of_all(r@),
{
    let children = p.node.children.borrow();
    children.iter().map(|n| Place { root: p.root.clone(), node: n.clone() }).collect()
}

/// The counts of the nodes and of all below them, from the last node to the first.
spec fn counts_backwards(places: Seq<Place>) -> Seq<usize>
    decreases places.len(),
{
    if places.len() == 0 {
        seq![]
    } else {
        places.last().counts() + counts_backwards(places.drop_last())
    }
}

/// Lists how many children each node has of the tree below a place.
fn list_counts(p: Place) -> (r: Vec<usize>)
    ensures
        r@ == p.counts(),
{
    let ghost whole = p.counts();
    let mut out: Vec<usize> = Vec::new();
    let mut open: Vec<Place> = Vec::new();
    open.push(p);
    assert(counts_backwards(open@.drop_last()) =~= seq![]);
    assert(open@.last().counts() == whole);
    assert(out@ + counts_backwards(open@) =~= whole);
    while open.len() > 0
        invariant
            out@ + counts_backwards(open@) == whole,
        decreases whole.len() - out@.len(),
    {
        let place = open.pop().unwrap();
        let ghost rest = open@;
        let ghost listed = out@;
        let mut below = children_of(&place);
        let ghost kids = below@;
        out.push(below.len());
        assert(kids.skip(kids.len() as int) =~= seq![]);
        assert(counts_of_all(kids.skip(kids.len() as int)) + counts_backwards(rest)
            =~= counts_backwards(rest));
        while below.len() > 0
            invariant
                below@.len() <= kids.len(),
                below@ == kids.take(below@.len() as int),
                counts_backwards(open@) == counts_of_all(kids.skip(below@.len() as int))
                    + counts_backwards(rest),
            decreases below@.len(),
        {
            let ghost n = below@.len() - 1;
            let ghost before = open@;
            let kid = below.pop().unwrap();
            open.push(kid);
            proof {
                assert(below@ =~= kids.take(n));
                assert(open@.drop_last() =~= before);
                assert(kids.skip(n)[0] == kid);
                assert(kids.skip(n).drop_first() =~= kids.skip(n + 1));
                assert(counts_backwards(open@) =~= counts_of_all(kids.skip(n))
                    + counts_backwards(rest));
            }
        }
        proof {
            assert(kids.skip(0) =~= kids);
            assert(out@ + counts_backwards(open@) =~= listed + (place.counts()
                + counts_backwards(rest)));
            assert(listed + (place.counts() + counts_backwards(rest)) =~= whole);
            assert(whole.len() >= out@.len());
        }
    }
    assert(out@ + counts_backwards(open@) =~= out@);
    out
}

/// Whether a conversion of `html` goes down no tree that is nested deeply.
fn converts_flat(html: &str) -> (r: bool)
    requires
        error::parseable(html@),
    ensures
        r == dom::flat_tree(converter_counts(html@)),
{
    match html_to_tree(html) {
        Some(p) => dom::is_flat_tree(&list_counts(p)),
        None => true,
    }
}

/// `htmd::convert`, with its default options: the Markdown for `html`, or the error's words.
/// The result is a function of `html`. The conversion goes down the tree of
/// `HtmlToMarkdown::html_to_tree` one call within another for every level, so the tree must not be
/// nested deeply.
#[verifier::external_body]
fn html_to_markdown(html: &str) -> (r: Result<String, String>)
    requires
        error::parseable(html@),
        dom::flat_tree(converter_counts(html@)),
    ensures
        match r {
            Ok(md) => markdown_of(html@) == Ok::<Seq<char>, Seq<char>>(md@),
            Err(e) => markdown_of(html@) == Err::<Seq<char>, Seq<char>>(e@),
        },
{
    htmd::convert(html).map_err(|e| e.to_string())
}

/// `line` opens or closes a fenced code block.
pub open spec fn is_fence(line: Seq<char>) -> bool {
    text::begins(text::trimmed_start(line), "```"@)
}

/// `s` with every run of spaces made one space; `after` says that a space stands before it.
pub open spec fn squeezed(s: Seq<char>, after: bool) -> Seq<char>
    decreases s.len(),
{
    if s.len() == 0 {
        seq![]
    } else if s[0] == ' ' && after {
        squeezed(s.drop_first(), true)
    } else {
        seq![s[0]] + squeezed(s.drop_first(), s[0] == ' ')
    }
}

/// `line` with its indentation kept and the runs of spaces behind that made single.
pub open spec fn squeezed_line(line: Seq<char>) -> Seq<char> {
    let body = text::trimmed_start(line);
    line.take(line.len() - body.len()) + squeezed(body, false)
}

/// The lines of tidy Markdown for `lines`: no white space at line ends, and outside fenced code no
/// two blank lines in a row and no runs of spaces. Of fenced code every line is kept. `code` says
/// that the first line stands in fenced code, `blank` that a blank line stands before it.
pub open spec fn tidy_lines(lines: Seq<Seq<char>>, code: bool, blank: bool) -> Seq<Seq<char>>
    decreases lines.len(),
{
    if lines.len() == 0 {
        seq![]
    } else {
        let line = text::trimmed_end(lines[0]);
        let rest = lines.drop_first();
        if is_fence(line) {
            seq![line] + tidy_lines(rest, !code, false)
        } else if code {
            seq![line] + tidy_lines(rest, true, false)
        } else if line.len() == 0 {
            (if blank {
                seq![]
            } else {
                seq![line]
            }) + tidy_lines(rest, false, true)
        } else {
            seq![squeezed_line(line)] + tidy_lines(rest, false, false)
        }
    }
}

/// The lines with a line feed behind each.
pub open spec fn ended(lines: Seq<Seq<char>>) -> Seq<char>
    decreases lines.len(),
{
    if lines.len() == 0 {
        seq![]
    } else {
        lines[0] + seq!['\n'] + ended(lines.drop_first())
    }
}

/// Tidy Markdown for `md`.
pub open spec fn normalized(md: Seq<char>) -> Seq<char> {
    text::trimmed(ended(tidy_lines(text::lines_of(md), false, false)))
}

/// What converting cleaned HTML gives.
pub open spec fn converted(html: Seq<char>) -> Result<Seq<char>, ErrorModel> {
    if !error::parseable(html) {
        Err(ErrorModel::DocumentTooLarge)
    } else if !dom::flat_tree(converter_counts(html)) {
        Err(ErrorModel::TooDeep)
    } else {
        match markdown_of(html) {
            Ok(md) => Ok(normalized(md)),
            Err(cause) => Err(ErrorModel::Markdown { cause }),
        }
    }
}

/// Converts cleaned HTML to compact Markdown.
pub fn to_markdown(html: &str) -> (r: Result<String, Error>)
    ensures
        error::outcome(r) == converted(html@),
{
    if !document_fits(html) {
        return Err(Error::DocumentTooLarge);
    }
    if !converts_flat(html) {
        return Err(Error::TooDeep);
    }
    match html_to_markdown(html) {
        Ok(md) => Ok(normalize(md.as_str())),
        Err(cause) => Err(Error::Markdown { cause }),
    }
}

proof fn lemma_ended_first(line: Seq<char>, rest: Seq<Seq<char>>)
    ensures
        ended(seq![line] + rest) == line + seq!['\n'] + ended(rest),
{
    assert((seq![line] + rest).drop_first() =~= rest);
}

/// Tidies Markdown for a minimal token footprint. The lines of fenced code are kept.
pub fn normalize(md: &str) -> (r: String)
    ensures
        r@ == normalized(md@),
{
    let chars = text::to_chars(md);
    let lines = text::lines(chars.as_slice());
    let ghost all = text::texts(lines@);
    let ghost whole = ended(tidy_lines(all, false, false));
    let mut out: Vec<char> = Vec::new();
    let mut code: bool = false;
    let mut blank: bool = false;
    let mut i: usize = 0;
    assert(all.skip(0) == all);
    assert(out@ + whole =~= whole);
    while i < lines.len()
        invariant
            i <= lines@.len(),
            all == text::texts(lines@),
            out@ + ended(tidy_lines(all.skip(i as int), code, blank)) == whole,
        decreases lines@.len() - i,
    {
        let ghost rest = all.skip(i as int);
        let ghost before = out@;
        let ghost old_code = code;
        let ghost old_blank = blank;
        assert(rest[0] == lines@[i as int]@);
        assert(rest.drop_first() == all.skip(i + 1));
        let line = text::trim_end(lines[i].as_slice());
        if text::starts_with(text::trim_start(line), "```") {
            proof {
                lemma_ended_first(line@, tidy_lines(all.skip(i + 1), !code, false));
            }
            code = !code;
            blank = false;
            text::extend_chars(&mut out, line);
            out.push('\n');
        } else if code {
            proof {
                lemma_ended_first(line@, tidy_lines(all.skip(i + 1), true, false));
            }
            blank = false;
            text::extend_chars(&mut out, line);
            out.push('\n');
        } else if line.len() == 0 {
            if !blank {
                proof {
                    lemma_ended_first(line@, tidy_lines(all.skip(i + 1), false, true));
                }
                out.push('\n');
            } else {
                assert(seq![] + tidy_lines(all.skip(i + 1), false, true) =~= tidy_lines(
                    all.skip(i + 1),
                    false,
                    true,
                ));
            }
            blank = true;
        } else {
            proof {
                lemma_ended_first(
                    squeezed_line(line@),
                    tidy_lines(all.skip(i + 1), false, false),
                );
            }
            blank = false;
            let tight = collapse_spaces(line);
            text::extend_chars(&mut out, tight.as_slice());
            out.push('\n');
        }
        assert(out@ + ended(tidy_lines(all.skip(i + 1), code, blank)) =~= before + ended(
            tidy_lines(rest, old_code, old_blank),
        ));
        i = i + 1;
    }
    assert(out@ + ended(tidy_lines(all.skip(i as int), code, blank)) =~= out@);
    text::from_chars(text::trim(out.as_slice()))
}

/// Collapses runs of spaces outside the leading indentation into single ones.
pub fn collapse_spaces(line: &[char]) -> (r: Vec<char>)
    ensures
        r@ == squeezed_line(line@),
{
    let body = text::trim_start(line);
    let ghost indent_len = line@.len() - body@.len();
    proof {
        text::lemma_trimmed_start(line@);
    }
    let indent = vstd::slice::slice_subrange(line, 0, line.len() - body.len());
    let mut out: Vec<char> = text::copy(indent);
    assert(out@ =~= line@.take(indent_len));
    let mut after: bool = false;
    let mut i: usize = 0;
    assert(body@.skip(0) == body@);
    while i < body.len()
        invariant
            i <= body@.len(),
            out@ + squeezed(body@.skip(i as int), after) == line@.take(indent_len) + squeezed(
                body@,
                false,
            ),
        decreases body@.len() - i,
    {
        let ghost rest = body@.skip(i as int);
        assert(rest[0] == body@[i as int]);
        assert(rest.drop_first() == body@.skip(i + 1));
        let c = body[i];
        let ghost before = out@;
        if c == ' ' && after {
        } else {
            out.push(c);
            assert(before + (seq![c] + squeezed(body@.skip(i + 1), c == ' ')) =~= out@ + squeezed(
                body@.skip(i + 1),
                c == ' ',
            ));
        }
        after = c == ' ';
        i = i + 1;
    }
    assert(out@ + squeezed(body@.skip(i as int), after) =~= out@);
    out
}

// ---------------------------------------------------------------------------------------------
// Laws
// ---------------------------------------------------------------------------------------------

/// No line feed stands in `s`.
pub open spec fn single_line(s: Seq<char>) -> bool {
    forall|i: int| 0 <= i < s.len() ==> s[i] != '\n'
}

/// No white space stands at the end of `line`.
pub open spec fn solid(line: Seq<char>) -> bool {
    line.len() > 0 ==> !text::is_ws(line.last())
}

/// The lines are tidy: no white space at line ends, and outside fenced code no two blank lines in
/// a row and no runs of spaces. `code` and `blank` are those of [`tidy_lines`].
pub open spec fn is_tidy(lines: Seq<Seq<char>>, code: bool, blank: bool) -> bool
    decreases lines.len(),
{
    lines.len() > 0 ==> {
        let line = lines[0];
        let rest = lines.drop_first();
        &&& solid(line)
        &&& if is_fence(line) {
            is_tidy(rest, !code, false)
        } else if code {
            is_tidy(rest, true, false)
        } else if line.len() == 0 {
            !blank && is_tidy(rest, false, true)
        } else {
            squeezed_line(line) == line && is_tidy(rest, false, false)
        }
    }
}

proof fn lemma_lines_are_single(s: Seq<char>)
    ensures
        forall|k: int| 0 <= k < text::lines_of(s).len() ==> single_line(#[trigger] text::lines_of(s)[k]),
    decreases s.len(),
{
    if s.len() > 0 {
        text::lemma_until(s, '\n');
        let n = text::until(s, '\n') as int;
        if n < s.len() {
            lemma_lines_are_single(s.skip(n + 1));
            let first = text::without_return(s.take(n));
            assert forall|i: int| 0 <= i < first.len() implies first[i] != '\n' by {
                assert(first[i] == s[i]);
            }
            assert forall|k: int| 0 <= k < text::lines_of(s).len() implies single_line(
                #[trigger] text::lines_of(s)[k],
            ) by {
                if k > 0 {
                    assert(text::lines_of(s)[k] == text::lines_of(s.skip(n + 1))[k - 1]);
                }
            }
        }
    }
}

proof fn lemma_squeezed(s: Seq<char>, after: bool)
    ensures
        squeezed(squeezed(s, after), after) == squeezed(s, after),
        single_line(s) ==> single_line(squeezed(s, after)),
        s.len() > 0 && s.last() != ' ' ==> squeezed(s, after).len() > 0 && squeezed(s, after).last()
            == s.last(),
    decreases s.len(),
{
    if s.len() > 0 {
        let rest = s.drop_first();
        assert(single_line(s) ==> single_line(rest));
        lemma_squeezed(rest, s[0] == ' ');
        assert(rest.len() > 0 ==> rest.last() == s.last());
        if s[0] == ' ' && after {
        } else {
            let tight = squeezed(s, after);
            assert(tight.drop_first() =~= squeezed(rest, s[0] == ' '));
            assert(squeezed(tight, after) =~= tight);
            assert forall|i: int| single_line(s) && 0 <= i < tight.len() implies tight[i] != '\n' by {
                if i > 0 {
                    assert(tight[i] == squeezed(rest, s[0] == ' ')[i - 1]);
                }
            }
            if rest.len() > 0 && s.last() != ' ' {
                assert(tight.last() == squeezed(rest, s[0] == ' ').last());
            }
        }
    }
}

proof fn lemma_squeezed_begins(s: Seq<char>, pat: Seq<char>)
    requires
        forall|i: int| 0 <= i < pat.len() ==> pat[i] != ' ',
    ensures
        text::begins(squeezed(s, false), pat) == text::begins(s, pat),
    decreases pat.len(),
{
    let tight = squeezed(s, false);
    if pat.len() == 0 {
        assert(tight.subrange(0, 0) =~= pat);
        assert(s.subrange(0, 0) =~= pat);
    } else if s.len() == 0 {
    } else if s[0] == ' ' {
        assert(tight[0] == ' ');
        if text::begins(tight, pat) {
            assert(tight.subrange(0, pat.len() as int)[0] == pat[0]);
        }
        if text::begins(s, pat) {
            assert(s.subrange(0, pat.len() as int)[0] == pat[0]);
        }
    } else {
        lemma_squeezed_begins(s.drop_first(), pat.drop_first());
        assert(tight.drop_first() =~= squeezed(s.drop_first(), false));
        lemma_begins_further(tight, pat);
        lemma_begins_further(s, pat);
    }
}

proof fn lemma_begins_further(s: Seq<char>, pat: Seq<char>)
    requires
        s.len() > 0,
        pat.len() > 0,
    ensures
        text::begins(s, pat) == (s[0] == pat[0] && text::begins(s.drop_first(), pat.drop_first())),
{
    let n = pat.len() as int;
    if text::begins(s, pat) {
        assert(s.subrange(0, n)[0] == pat[0]);
        assert(s.drop_first().subrange(0, n - 1) =~= s.subrange(0, n).drop_first());
    }
    if s[0] == pat[0] && text::begins(s.drop_first(), pat.drop_first()) {
        assert forall|i: int| 0 <= i < n implies s.subrange(0, n)[i] == pat[i] by {
            if i > 0 {
                assert(s.drop_first().subrange(0, n - 1)[i - 1] == pat.drop_first()[i - 1]);
            }
        }
        assert(s.subrange(0, n) =~= pat);
    }
}

/// White space before a text that starts with none is what trimming takes away.
proof fn lemma_trim_indent(indent: Seq<char>, body: Seq<char>)
    requires
        forall|i: int| 0 <= i < indent.len() ==> text::is_ws(#[trigger] indent[i]),
        body.len() > 0 ==> !text::is_ws(body[0]),
    ensures
        text::trimmed_start(indent + body) == body,
    decreases indent.len(),
{
    if indent.len() == 0 {
        assert(indent + body =~= body);
    } else {
        assert((indent + body)[0] == indent[0]);
        assert((indent + body).drop_first() =~= indent.drop_first() + body);
        lemma_trim_indent(indent.drop_first(), body);
    }
}

/// Trimming before a line that holds something stays within the line.
proof fn lemma_trim_within(line: Seq<char>, rest: Seq<char>)
    requires
        line.len() > 0,
        solid(line),
    ensures
        text::trimmed_start(line + rest) == text::trimmed_start(line) + rest,
        text::trimmed_start(line).len() > 0,
        solid(text::trimmed_start(line)),
    decreases line.len(),
{
    assert((line + rest)[0] == line[0]);
    if text::is_ws(line[0]) {
        assert(line.len() > 1);
        assert((line + rest).drop_first() =~= line.drop_first() + rest);
        assert(line.drop_first().last() == line.last());
        lemma_trim_within(line.drop_first(), rest);
    }
}

proof fn lemma_squeezed_line(line: Seq<char>)
    requires
        line.len() > 0,
        solid(line),
    ensures
        squeezed_line(line).len() > 0,
        solid(squeezed_line(line)),
        squeezed_line(squeezed_line(line)) == squeezed_line(line),
        is_fence(squeezed_line(line)) == is_fence(line),
        single_line(line) ==> single_line(squeezed_line(line)),
{
    let body = text::trimmed_start(line);
    text::lemma_trimmed_start(line);
    lemma_trim_within(line, seq![]);
    let indent = line.take(line.len() - body.len());
    let tight = squeezed(body, false);
    lemma_squeezed(body, false);
    assert(body.last() == line.last());
    assert(text::is_ws(' '));
    assert(tight[0] == body[0]);
    let whole = squeezed_line(line);
    assert(whole == indent + tight);
    assert(whole.last() == tight.last());
    lemma_trim_indent(indent, tight);
    assert(whole.take(whole.len() - tight.len()) =~= indent);
    reveal_strlit("```");
    lemma_squeezed_begins(body, "```"@);
    if single_line(line) {
        assert forall|i: int| 0 <= i < body.len() implies body[i] != '\n' by {
            assert(body[i] == line[line.len() - body.len() + i]);
        }
        assert forall|i: int| 0 <= i < whole.len() implies whole[i] != '\n' by {
            if i < indent.len() {
                assert(whole[i] == line[i]);
            } else {
                assert(whole[i] == tight[i - indent.len()]);
            }
        }
    }
}

/// Every line is a single one.
pub open spec fn all_single(lines: Seq<Seq<char>>) -> bool {
    forall|k: int| 0 <= k < lines.len() ==> single_line(#[trigger] lines[k])
}

proof fn lemma_single_behind(line: Seq<char>, rest: Seq<Seq<char>>)
    requires
        single_line(line),
        all_single(rest),
    ensures
        all_single(seq![line] + rest),
{
    assert forall|k: int| 0 <= k < (seq![line] + rest).len() implies single_line(
        #[trigger] (seq![line] + rest)[k],
    ) by {
        if k > 0 {
            assert((seq![line] + rest)[k] == rest[k - 1]);
        }
    }
}

proof fn lemma_tidied(lines: Seq<Seq<char>>, code: bool, blank: bool)
    requires
        all_single(lines),
    ensures
        is_tidy(tidy_lines(lines, code, blank), code, blank),
        all_single(tidy_lines(lines, code, blank)),
    decreases lines.len(),
{
    if lines.len() > 0 {
        let line = text::trimmed_end(lines[0]);
        let rest = lines.drop_first();
        assert forall|k: int| 0 <= k < rest.len() implies single_line(#[trigger] rest[k]) by {
            assert(rest[k] == lines[k + 1]);
        }
        text::lemma_trimmed_end(lines[0]);
        assert(single_line(lines[0]));
        assert(single_line(line));
        if is_fence(line) {
            lemma_tidied(rest, !code, false);
            let tail = tidy_lines(rest, !code, false);
            assert((seq![line] + tail).drop_first() =~= tail);
            lemma_single_behind(line, tail);
        } else if code {
            lemma_tidied(rest, true, false);
            let tail = tidy_lines(rest, true, false);
            assert((seq![line] + tail).drop_first() =~= tail);
            lemma_single_behind(line, tail);
        } else if line.len() == 0 {
            lemma_tidied(rest, false, true);
            let tail = tidy_lines(rest, false, true);
            assert((seq![line] + tail).drop_first() =~= tail);
            assert(seq![] + tail =~= tail);
            lemma_single_behind(line, tail);
        } else {
            lemma_tidied(rest, false, false);
            lemma_squeezed_line(line);
            let tail = tidy_lines(rest, false, false);
            assert((seq![squeezed_line(line)] + tail).drop_first() =~= tail);
            lemma_single_behind(squeezed_line(line), tail);
        }
    }
}

proof fn lemma_tidy_stays(lines: Seq<Seq<char>>, code: bool, blank: bool)
    requires
        is_tidy(lines, code, blank),
    ensures
        tidy_lines(lines, code, blank) == lines,
    decreases lines.len(),
{
    if lines.len() > 0 {
        let rest = lines.drop_first();
        assert(text::trimmed_end(lines[0]) == lines[0]);
        assert(seq![lines[0]] + rest =~= lines);
        if is_fence(lines[0]) {
            lemma_tidy_stays(rest, !code, false);
        } else if code {
            lemma_tidy_stays(rest, true, false);
        } else if lines[0].len() == 0 {
            lemma_tidy_stays(rest, false, true);
        } else {
            lemma_tidy_stays(rest, false, false);
        }
    }
}

proof fn lemma_tidy_prefix(lines: Seq<Seq<char>>, n: int, code: bool, blank: bool)
    requires
        is_tidy(lines, code, blank),
        0 <= n <= lines.len(),
    ensures
        is_tidy(lines.take(n), code, blank),
    decreases n,
{
    if n > 0 {
        let rest = lines.drop_first();
        assert(lines.take(n).drop_first() =~= rest.take(n - 1));
        if is_fence(lines[0]) {
            lemma_tidy_prefix(rest, n - 1, !code, false);
        } else if code {
            lemma_tidy_prefix(rest, n - 1, true, false);
        } else if lines[0].len() == 0 {
            lemma_tidy_prefix(rest, n - 1, false, true);
        } else {
            lemma_tidy_prefix(rest, n - 1, false, false);
        }
    }
}

/// The lines from the first that holds something on, that one without its indentation.
spec fn headed(lines: Seq<Seq<char>>) -> Seq<Seq<char>>
    decreases lines.len(),
{
    if lines.len() == 0 {
        seq![]
    } else if lines[0].len() == 0 {
        headed(lines.drop_first())
    } else {
        seq![text::trimmed_start(lines[0])] + lines.drop_first()
    }
}

/// The lines up to the last that holds something.
spec fn tailed(lines: Seq<Seq<char>>) -> Seq<Seq<char>>
    decreases lines.len(),
{
    if lines.len() > 0 && lines.last().len() == 0 {
        tailed(lines.drop_last())
    } else {
        lines
    }
}

/// The lines with a line feed between each two.
spec fn written(lines: Seq<Seq<char>>) -> Seq<char> {
    if lines.len() == 0 {
        seq![]
    } else {
        ended(lines.drop_last()) + lines.last()
    }
}

proof fn lemma_headed(lines: Seq<Seq<char>>, blank: bool)
    requires
        is_tidy(lines, false, blank),
        all_single(lines),
    ensures
        is_tidy(headed(lines), false, false),
        all_single(headed(lines)),
        headed(lines).len() > 0 ==> headed(lines)[0].len() > 0 && !text::is_ws(headed(lines)[0][0]),
        text::trimmed_start(ended(lines)) == ended(headed(lines)),
    decreases lines.len(),
{
    if lines.len() > 0 {
        let rest = lines.drop_first();
        assert forall|k: int| 0 <= k < rest.len() implies single_line(#[trigger] rest[k]) by {
            assert(rest[k] == lines[k + 1]);
        }
        if lines[0].len() == 0 {
            reveal_strlit("```");
            assert(text::trimmed_start(lines[0]).len() == 0);
            assert(!is_fence(lines[0]));
            lemma_headed(rest, true);
            assert(ended(lines) =~= seq!['\n'] + ended(rest));
            assert(ended(lines).drop_first() =~= ended(rest));
        } else {
            let line = lines[0];
            let body = text::trimmed_start(line);
            let all = headed(lines);
            text::lemma_trimmed_start(line);
            lemma_trim_within(line, seq!['\n'] + ended(rest));
            assert(line + (seq!['\n'] + ended(rest)) =~= ended(lines));
            assert(all.drop_first() =~= rest);
            lemma_ended_first(body, rest);
            assert(body + (seq!['\n'] + ended(rest)) =~= ended(all));
            assert(text::trimmed_start(body) == body);
            assert(single_line(line));
            assert forall|i: int| 0 <= i < body.len() implies body[i] != '\n' by {
                assert(body[i] == line[line.len() - body.len() + i]);
            }
            lemma_single_behind(body, rest);
            if !is_fence(line) {
                let indent = line.take(line.len() - body.len());
                assert(squeezed_line(line) == indent + squeezed(body, false));
                assert((indent + squeezed(body, false)).skip(indent.len() as int) =~= squeezed(
                    body,
                    false,
                ));
                assert(line.skip(indent.len() as int) =~= body);
                assert(body.take(0) + squeezed(body, false) =~= squeezed(body, false));
                assert(squeezed_line(body) == body);
            }
        }
    }
}

proof fn lemma_ended_last(lines: Seq<Seq<char>>)
    requires
        lines.len() > 0,
    ensures
        ended(lines) == ended(lines.drop_last()) + lines.last() + seq!['\n'],
    decreases lines.len(),
{
    let rest = lines.drop_first();
    if rest.len() == 0 {
        assert(ended(rest) =~= seq![]);
        assert(ended(lines.drop_last()) =~= seq![]);
        assert(ended(lines) =~= ended(lines.drop_last()) + lines.last() + seq!['\n']);
    } else {
        lemma_ended_last(rest);
        assert(lines.drop_last().drop_first() =~= rest.drop_last());
        assert(rest.last() == lines.last());
        assert(ended(lines) =~= ended(lines.drop_last()) + lines.last() + seq!['\n']);
    }
}

proof fn lemma_tailed(lines: Seq<Seq<char>>)
    requires
        forall|k: int| 0 <= k < lines.len() ==> solid(#[trigger] lines[k]),
    ensures
        tailed(lines).len() <= lines.len(),
        tailed(lines) == lines.take(tailed(lines).len() as int),
        tailed(lines).len() > 0 ==> tailed(lines).last().len() > 0,
        text::trimmed_end(ended(lines)) == written(tailed(lines)),
    decreases lines.len(),
{
    assert(lines.take(lines.len() as int) =~= lines);
    if lines.len() > 0 {
        let front = lines.drop_last();
        lemma_ended_last(lines);
        let whole = ended(lines);
        assert(whole.last() == '\n');
        assert(text::is_ws('\n'));
        assert(whole.drop_last() =~= ended(front) + lines.last());
        assert(text::trimmed_end(whole) == text::trimmed_end(ended(front) + lines.last()));
        if lines.last().len() == 0 {
            assert forall|k: int| 0 <= k < front.len() implies solid(#[trigger] front[k]) by {
                assert(front[k] == lines[k]);
            }
            lemma_tailed(front);
            assert(ended(front) + lines.last() =~= ended(front));
            assert(front.take(tailed(front).len() as int) =~= lines.take(
                tailed(front).len() as int,
            ));
        } else {
            assert(solid(lines[lines.len() - 1]));
            assert((ended(front) + lines.last()).last() == lines.last().last());
        }
    }
}

proof fn lemma_written_lines(lines: Seq<Seq<char>>)
    requires
        lines.len() > 0,
        lines.last().len() > 0,
        all_single(lines),
        forall|k: int| 0 <= k < lines.len() ==> solid(#[trigger] lines[k]),
    ensures
        text::lines_of(written(lines)) == lines,
    decreases lines.len(),
{
    let line = lines[0];
    let s = written(lines);
    assert(single_line(line));
    assert(solid(line));
    if lines.len() == 1 {
        assert(ended(lines.drop_last()) =~= seq![]);
        assert(s =~= line);
        text::lemma_until_is(s, '\n', s.len());
        assert(text::lines_of(s) =~= lines);
    } else {
        let rest = lines.drop_first();
        assert forall|k: int| 0 <= k < rest.len() implies single_line(#[trigger] rest[k]) && solid(
            rest[k],
        ) by {
            assert(rest[k] == lines[k + 1]);
        }
        lemma_written_lines(rest);
        assert(lines.drop_last().drop_first() =~= rest.drop_last());
        assert(s =~= line + seq!['\n'] + written(rest));
        let n = line.len();
        assert forall|i: int| 0 <= i < n implies #[trigger] s[i] != '\n' by {
            assert(s[i] == line[i]);
        }
        assert(s[n as int] == '\n');
        text::lemma_until_is(s, '\n', n);
        assert(s.take(n as int) =~= line);
        assert(s.skip(n as int + 1) =~= written(rest));
        assert(text::is_ws('\r'));
        assert(text::without_return(line) == line);
        assert(seq![line] + rest =~= lines);
    }
}

proof fn lemma_solid(lines: Seq<Seq<char>>, code: bool, blank: bool, k: int)
    requires
        is_tidy(lines, code, blank),
        0 <= k < lines.len(),
    ensures
        solid(lines[k]),
    decreases k,
{
    if k > 0 {
        let rest = lines.drop_first();
        assert(rest[k - 1] == lines[k]);
        if is_fence(lines[0]) {
            lemma_solid(rest, !code, false, k - 1);
        } else if code {
            lemma_solid(rest, true, false, k - 1);
        } else if lines[0].len() == 0 {
            lemma_solid(rest, false, true, k - 1);
        } else {
            lemma_solid(rest, false, false, k - 1);
        }
    }
}

/// The lines of tidy Markdown.
proof fn lemma_normalized(md: Seq<char>) -> (lines: Seq<Seq<char>>)
    ensures
        normalized(md) == written(lines),
        text::lines_of(normalized(md)) == lines,
        lines == tailed(headed(tidy_lines(text::lines_of(md), false, false))),
        is_tidy(lines, false, false),
        all_single(lines),
        lines.len() > 0 ==> lines[0].len() > 0 && !text::is_ws(lines[0][0]) && lines.last().len() > 0,
{
    let source = text::lines_of(md);
    lemma_lines_are_single(md);
    let tidy = tidy_lines(source, false, false);
    lemma_tidied(source, false, false);
    lemma_headed(tidy, false);
    let from = headed(tidy);
    assert forall|k: int| 0 <= k < from.len() implies solid(#[trigger] from[k]) by {
        lemma_solid(from, false, false, k);
    }
    lemma_tailed(from);
    let lines = tailed(from);
    lemma_tidy_prefix(from, lines.len() as int, false, false);
    assert forall|k: int| 0 <= k < lines.len() implies single_line(#[trigger] lines[k]) && solid(
        lines[k],
    ) by {
        assert(lines[k] == from[k]);
        assert(single_line(from[k]));
    }
    if lines.len() > 0 {
        assert(lines[0] == from[0]);
        lemma_written_lines(lines);
    }
    lines
}

/// Tidy Markdown is tidy: no line of it ends in white space, outside fenced code it holds neither
/// two blank lines in a row nor runs of spaces behind an indentation, and it neither starts nor
/// ends in white space.
pub proof fn law_normalized_is_compact(md: Seq<char>)
    ensures
        is_tidy(text::lines_of(normalized(md)), false, false),
        normalized(md).len() > 0 ==> !text::is_ws(normalized(md)[0]) && !text::is_ws(
            normalized(md).last(),
        ),
{
    let lines = lemma_normalized(md);
    if lines.len() > 0 {
        let k = lines.len() - 1;
        lemma_solid(lines, false, false, k);
        assert(written(lines).last() == lines.last().last());
        if lines.len() > 1 {
            assert(written(lines)[0] == lines[0][0]);
        }
    }
}

/// Tidying what is tidy changes nothing.
pub proof fn law_normalizing_again_changes_nothing(md: Seq<char>)
    ensures
        normalized(normalized(md)) == normalized(md),
{
    let lines = lemma_normalized(md);
    lemma_tidy_stays(lines, false, false);
    lemma_headed(lines, false);
    if lines.len() > 0 {
        assert(text::trimmed_start(lines[0]) == lines[0]);
        assert(seq![lines[0]] + lines.drop_first() =~= lines);
    }
    assert(headed(lines) =~= lines);
    assert forall|k: int| 0 <= k < lines.len() implies solid(#[trigger] lines[k]) by {
        lemma_solid(lines, false, false, k);
    }
    lemma_tailed(lines);
}

/// Of fenced code every line is kept, blank ones too, but for the white space at its end.
pub proof fn law_fenced_code_is_kept(lines: Seq<Seq<char>>, blank: bool)
    requires
        forall|i: int|
            0 <= i < lines.len() ==> !is_fence(text::trimmed_end(#[trigger] lines[i])),
    ensures
        tidy_lines(lines, true, blank) == Seq::new(
            lines.len(),
            |i: int| text::trimmed_end(lines[i]),
        ),
    decreases lines.len(),
{
    if lines.len() > 0 {
        let rest = lines.drop_first();
        assert forall|i: int| 0 <= i < rest.len() implies !is_fence(
            text::trimmed_end(#[trigger] rest[i]),
        ) by {
            assert(rest[i] == lines[i + 1]);
        }
        law_fenced_code_is_kept(rest, false);
    }
    assert(tidy_lines(lines, true, blank) =~= Seq::new(
        lines.len(),
        |i: int| text::trimmed_end(lines[i]),
    ));
}

/// The characters of `s` that are no white space.
pub open spec fn shown(s: Seq<char>) -> Seq<char>
    decreases s.len(),
{
    if s.len() == 0 {
        seq![]
    } else if text::is_ws(s.last()) {
        shown(s.drop_last())
    } else {
        shown(s.drop_last()).push(s.last())
    }
}

/// The characters of the lines that are no white space.
spec fn shown_lines(lines: Seq<Seq<char>>) -> Seq<char>
    decreases lines.len(),
{
    if lines.len() == 0 {
        seq![]
    } else {
        shown(lines[0]) + shown_lines(lines.drop_first())
    }
}

proof fn lemma_shown_parts(a: Seq<char>, b: Seq<char>)
    ensures
        shown(a + b) == shown(a) + shown(b),
    decreases b.len(),
{
    if b.len() == 0 {
        assert(a + b =~= a);
        assert(shown(a) + shown(b) =~= shown(a));
    } else {
        lemma_shown_parts(a, b.drop_last());
        assert((a + b).drop_last() =~= a + b.drop_last());
        assert((a + b).last() == b.last());
        assert(shown(a + b) =~= shown(a) + shown(b));
    }
}

proof fn lemma_nothing_shown(s: Seq<char>)
    requires
        forall|i: int| 0 <= i < s.len() ==> text::is_ws(#[trigger] s[i]),
    ensures
        shown(s) == Seq::<char>::empty(),
    decreases s.len(),
{
    if s.len() > 0 {
        assert(text::is_ws(s[s.len() - 1]));
        assert forall|i: int| 0 <= i < s.drop_last().len() implies text::is_ws(
            #[trigger] s.drop_last()[i],
        ) by {
            assert(s.drop_last()[i] == s[i]);
        }
        lemma_nothing_shown(s.drop_last());
    }
}

proof fn lemma_shown_trimmed(s: Seq<char>)
    ensures
        shown(text::trimmed_end(s)) == shown(s),
        shown(text::trimmed_start(s)) == shown(s),
        shown(text::trimmed(s)) == shown(s),
{
    lemma_shown_trimmed_end(s);
    lemma_shown_trimmed_start(s);
    lemma_shown_trimmed_end(text::trimmed_start(s));
}

proof fn lemma_shown_trimmed_end(s: Seq<char>)
    ensures
        shown(text::trimmed_end(s)) == shown(s),
    decreases s.len(),
{
    if s.len() > 0 && text::is_ws(s.last()) {
        lemma_shown_trimmed_end(s.drop_last());
    }
}

proof fn lemma_shown_trimmed_start(s: Seq<char>)
    ensures
        shown(text::trimmed_start(s)) == shown(s),
    decreases s.len(),
{
    if s.len() > 0 && text::is_ws(s[0]) {
        lemma_shown_trimmed_start(s.drop_first());
        lemma_shown_first(s);
    }
}

proof fn lemma_shown_first(s: Seq<char>)
    requires
        s.len() > 0,
    ensures
        shown(s) == (if text::is_ws(s[0]) {
            shown(s.drop_first())
        } else {
            seq![s[0]] + shown(s.drop_first())
        }),
{
    let first = seq![s[0]];
    assert(s =~= first + s.drop_first());
    lemma_shown_parts(first, s.drop_first());
    assert(shown(first.drop_last()) =~= seq![]);
    assert(shown(first) =~= if text::is_ws(s[0]) {
        seq![]
    } else {
        first
    });
    assert(seq![] + shown(s.drop_first()) =~= shown(s.drop_first()));
}

proof fn lemma_shown_squeezed(s: Seq<char>, after: bool)
    ensures
        shown(squeezed(s, after)) == shown(s),
    decreases s.len(),
{
    if s.len() > 0 {
        assert(text::is_ws(' '));
        let rest = s.drop_first();
        lemma_shown_squeezed(rest, s[0] == ' ');
        lemma_shown_first(s);
        if s[0] == ' ' && after {
        } else {
            let tight = squeezed(s, after);
            lemma_shown_first(tight);
            assert(tight.drop_first() =~= squeezed(rest, s[0] == ' '));
        }
    }
}

proof fn lemma_shown_squeezed_line(line: Seq<char>)
    ensures
        shown(squeezed_line(line)) == shown(line),
{
    let body = text::trimmed_start(line);
    text::lemma_trimmed_start(line);
    let indent = line.take(line.len() - body.len());
    assert forall|i: int| 0 <= i < indent.len() implies text::is_ws(#[trigger] indent[i]) by {
        assert(indent[i] == line[i]);
    }
    lemma_nothing_shown(indent);
    lemma_shown_parts(indent, squeezed(body, false));
    lemma_shown_squeezed(body, false);
    lemma_shown_trimmed(line);
    assert(Seq::<char>::empty() + shown(body) =~= shown(body));
}

proof fn lemma_shown_ended(lines: Seq<Seq<char>>)
    ensures
        shown(ended(lines)) == shown_lines(lines),
    decreases lines.len(),
{
    if lines.len() > 0 {
        let feed = seq!['\n'];
        lemma_shown_ended(lines.drop_first());
        lemma_shown_parts(lines[0] + feed, ended(lines.drop_first()));
        lemma_shown_parts(lines[0], feed);
        assert(text::is_ws('\n'));
        lemma_nothing_shown(feed);
        assert(shown(lines[0]) + Seq::<char>::empty() =~= shown(lines[0]));
    }
}

proof fn lemma_shown_lines_of(s: Seq<char>)
    ensures
        shown_lines(text::lines_of(s)) == shown(s),
    decreases s.len(),
{
    if s.len() > 0 {
        text::lemma_until(s, '\n');
        let n = text::until(s, '\n') as int;
        if n < s.len() {
            let line = s.take(n);
            let first = text::without_return(line);
            let rest = s.skip(n + 1);
            lemma_shown_lines_of(rest);
            assert(text::is_ws('\r') && text::is_ws('\n'));
            assert(shown(first) == shown(line));
            assert(s =~= line.push('\n') + rest);
            lemma_shown_parts(line.push('\n'), rest);
            assert(line.push('\n').drop_last() =~= line);
            assert((seq![first] + text::lines_of(rest)).drop_first() =~= text::lines_of(rest));
        } else {
            assert(seq![s].drop_first() =~= seq![]);
            assert(shown_lines(seq![s].drop_first()) =~= seq![]);
            assert(shown_lines(seq![s]) =~= shown(s));
        }
    }
}

proof fn lemma_shown_behind(line: Seq<char>, rest: Seq<Seq<char>>)
    ensures
        shown_lines(seq![line] + rest) == shown(line) + shown_lines(rest),
{
    assert((seq![line] + rest).drop_first() =~= rest);
}

proof fn lemma_shown_tidied(lines: Seq<Seq<char>>, code: bool, blank: bool)
    ensures
        shown_lines(tidy_lines(lines, code, blank)) == shown_lines(lines),
    decreases lines.len(),
{
    if lines.len() > 0 {
        let line = text::trimmed_end(lines[0]);
        let rest = lines.drop_first();
        lemma_shown_trimmed(lines[0]);
        if is_fence(line) {
            lemma_shown_tidied(rest, !code, false);
            lemma_shown_behind(line, tidy_lines(rest, !code, false));
        } else if code {
            lemma_shown_tidied(rest, true, false);
            lemma_shown_behind(line, tidy_lines(rest, true, false));
        } else if line.len() == 0 {
            let tail = tidy_lines(rest, false, true);
            lemma_shown_tidied(rest, false, true);
            lemma_shown_behind(line, tail);
            assert(seq![] + tail =~= tail);
            assert(shown(line) + shown_lines(tail) =~= shown_lines(tail));
        } else {
            lemma_shown_tidied(rest, false, false);
            lemma_shown_squeezed_line(line);
            lemma_shown_behind(squeezed_line(line), tidy_lines(rest, false, false));
        }
    }
}

/// Tidying takes nothing away but white space: every other character stays, in its order.
pub proof fn law_normalizing_keeps_what_shows(md: Seq<char>)
    ensures
        shown(normalized(md)) == shown(md),
{
    let lines = text::lines_of(md);
    let tidy = tidy_lines(lines, false, false);
    lemma_shown_trimmed(ended(tidy));
    lemma_shown_ended(tidy);
    lemma_shown_tidied(lines, false, false);
    lemma_shown_lines_of(md);
}

/// Collapsing the spaces of a line leaves its indentation alone: the line still starts with the
/// same white space, and with no more. Behind it no two spaces follow each other.
pub proof fn law_indentation_is_kept(line: Seq<char>, n: int)
    requires
        0 <= n <= line.len(),
        forall|i: int| 0 <= i < n ==> text::is_ws(#[trigger] line[i]),
        n < line.len() ==> !text::is_ws(line[n]),
    ensures
        squeezed_line(line).len() >= n,
        squeezed_line(line).take(n) == line.take(n),
        n < line.len() ==> squeezed_line(line).len() > n && squeezed_line(line)[n] == line[n],
        n == line.len() ==> squeezed_line(line) == line,
        forall|i: int|
            n <= i < squeezed_line(line).len() - 1 ==> !(#[trigger] squeezed_line(line)[i] == ' '
                && squeezed_line(line)[i + 1] == ' '),
{
    let body = text::trimmed_start(line);
    lemma_trim_indent(line.take(n), line.skip(n));
    assert(line.take(n) + line.skip(n) =~= line);
    assert(body == line.skip(n));
    let tight = squeezed(body, false);
    let whole = squeezed_line(line);
    assert(whole == line.take(n) + tight);
    assert(whole.take(n) =~= line.take(n));
    lemma_squeezed_pairs(body, false);
    if n < line.len() {
        assert(body[0] == line[n]);
        assert(tight[0] == body[0]);
    } else {
        assert(whole =~= line);
    }
    assert forall|i: int| n <= i < whole.len() - 1 implies !(#[trigger] squeezed_line(line)[i] == ' '
        && squeezed_line(line)[i + 1] == ' ') by {
        assert(whole[i] == tight[i - n]);
        assert(whole[i + 1] == tight[i + 1 - n]);
    }
}

/// A second space behind another one counts for nothing, and a line without two spaces in a row
/// behind its indentation stays as it is.
pub proof fn law_only_repeated_spaces_go(front: Seq<char>, back: Seq<char>, n: int)
    requires
        0 <= n < front.len(),
        forall|i: int| 0 <= i < n ==> text::is_ws(#[trigger] front[i]),
        !text::is_ws(front[n]),
    ensures
        squeezed_line(front + seq![' ', ' '] + back) == squeezed_line(front + seq![' '] + back),
        (forall|i: int| n <= i < front.len() - 1 ==> !(#[trigger] front[i] == ' ' && front[i + 1]
            == ' ')) ==> squeezed_line(front) == front,
{
    let indent = front.take(n);
    let core = front.skip(n);
    let double = seq![' ', ' '];
    let single = seq![' '];
    assert forall|i: int| 0 <= i < indent.len() implies text::is_ws(#[trigger] indent[i]) by {
        assert(indent[i] == front[i]);
    }
    assert(core[0] == front[n]);
    assert(front =~= indent + core);
    assert(front + double + back =~= indent + (core + double + back));
    assert(front + single + back =~= indent + (core + single + back));
    lemma_trim_indent(indent, core);
    lemma_trim_indent(indent, core + double + back);
    lemma_trim_indent(indent, core + single + back);
    assert((indent + core).take(n) =~= indent);
    assert((indent + (core + double + back)).take(n) =~= indent);
    assert((indent + (core + single + back)).take(n) =~= indent);
    lemma_squeezed_double(core, back, false);
    if forall|i: int| n <= i < front.len() - 1 ==> !(#[trigger] front[i] == ' ' && front[i + 1] == ' ') {
        assert forall|i: int| 0 <= i < core.len() - 1 implies !(#[trigger] core[i] == ' ' && core[i
            + 1] == ' ') by {
            assert(core[i] == front[n + i]);
            assert(core[i + 1] == front[n + i + 1]);
        }
        assert(text::is_ws(' '));
        lemma_squeezed_same(core, false);
    }
}

proof fn lemma_squeezed_double(front: Seq<char>, back: Seq<char>, after: bool)
    ensures
        squeezed(front + seq![' ', ' '] + back, after) == squeezed(front + seq![' '] + back, after),
    decreases front.len(),
{
    let a = front + seq![' ', ' '] + back;
    let b = front + seq![' '] + back;
    if front.len() == 0 {
        assert(a.drop_first() =~= b);
        assert(b.drop_first() =~= back);
        assert(a[0] == ' ' && b[0] == ' ');
        assert(squeezed(b, true) == squeezed(back, true));
    } else {
        assert(a.drop_first() =~= front.drop_first() + seq![' ', ' '] + back);
        assert(b.drop_first() =~= front.drop_first() + seq![' '] + back);
        assert(a[0] == front[0] && b[0] == front[0]);
        lemma_squeezed_double(front.drop_first(), back, front[0] == ' ');
    }
}

proof fn lemma_squeezed_same(s: Seq<char>, after: bool)
    requires
        forall|i: int| 0 <= i < s.len() - 1 ==> !(#[trigger] s[i] == ' ' && s[i + 1] == ' '),
        s.len() > 0 && after ==> s[0] != ' ',
    ensures
        squeezed(s, after) == s,
    decreases s.len(),
{
    if s.len() > 0 {
        let rest = s.drop_first();
        assert forall|i: int| 0 <= i < rest.len() - 1 implies !(#[trigger] rest[i] == ' ' && rest[i
            + 1] == ' ') by {
            assert(rest[i] == s[i + 1]);
            assert(rest[i + 1] == s[i + 2]);
        }
        if rest.len() > 0 {
            assert(!(s[0] == ' ' && s[1] == ' '));
            assert(rest[0] == s[1]);
        }
        lemma_squeezed_same(rest, s[0] == ' ');
        assert(seq![s[0]] + rest =~= s);
    } else {
        assert(squeezed(s, after) =~= s);
    }
}

proof fn lemma_squeezed_pairs(s: Seq<char>, after: bool)
    ensures
        forall|i: int|
            0 <= i < squeezed(s, after).len() - 1 ==> !(#[trigger] squeezed(s, after)[i] == ' '
                && squeezed(s, after)[i + 1] == ' '),
        after && squeezed(s, after).len() > 0 ==> squeezed(s, after)[0] != ' ',
    decreases s.len(),
{
    if s.len() > 0 {
        let rest = s.drop_first();
        lemma_squeezed_pairs(rest, s[0] == ' ');
        if !(s[0] == ' ' && after) {
            let tight = squeezed(s, after);
            let tail = squeezed(rest, s[0] == ' ');
            assert forall|i: int| 0 <= i < tight.len() - 1 implies !(#[trigger] squeezed(
                s,
                after,
            )[i] == ' ' && squeezed(s, after)[i + 1] == ' ') by {
                assert(tight[i + 1] == tail[i]);
                if i > 0 {
                    assert(tight[i] == tail[i - 1]);
                    assert(!(tail[i - 1] == ' ' && tail[i - 1 + 1] == ' '));
                }
            }
        }
    }
}

/// The lines that hold something.
pub open spec fn inked(lines: Seq<Seq<char>>) -> Seq<Seq<char>> {
    lines.filter(|line: Seq<char>| line.len() > 0)
}

/// Tidying neither drops, adds nor reorders lines that hold something. A fence, and a line behind
/// an odd number of fences, loses the white space at its end and nothing more. Of every other line
/// the repeated spaces go too. The first line of all also loses its indentation.
pub proof fn law_every_line_is_kept_in_its_place(md: Seq<char>)
    ensures
        ({
            let source = inked(
                text::lines_of(md).map_values(|line: Seq<char>| text::trimmed_end(line)),
            );
            let out = inked(text::lines_of(normalized(md)));
            &&& out.len() == source.len()
            &&& forall|i: int|
                #![trigger out[i]]
                0 <= i < out.len() ==> {
                    let fences = source.take(i).filter(
                        |line: Seq<char>| text::begins(text::trimmed_start(line), "```"@),
                    ).len();
                    let line = if text::begins(text::trimmed_start(source[i]), "```"@) || fences % 2
                        == 1 {
                        source[i]
                    } else {
                        squeezed_line(source[i])
                    };
                    out[i] == if i == 0 {
                        text::trimmed_start(line)
                    } else {
                        line
                    }
                }
        }),
{
    let lines = text::lines_of(md);
    let tidy = tidy_lines(lines, false, false);
    let kept = lemma_normalized(md);
    lemma_inked_tidy(lines, false, false);
    lemma_inked_headed(tidy);
    lemma_inked_tailed(headed(tidy));
}

proof fn lemma_inked_first(line: Seq<char>, rest: Seq<Seq<char>>)
    ensures
        inked(seq![line] + rest) == if line.len() > 0 {
            seq![line] + inked(rest)
        } else {
            inked(rest)
        },
{
    let head = seq![line];
    let full = |line: Seq<char>| line.len() > 0;
    Seq::filter_distributes_over_add(head, rest, full);
    reveal(Seq::filter);
    assert(head.drop_last() =~= seq![]);
    assert(head.drop_last().filter(full) =~= seq![]);
    assert(head.filter(full) =~= if line.len() > 0 {
        head
    } else {
        seq![]
    });
    assert(seq![] + rest.filter(full) =~= rest.filter(full));
}

proof fn lemma_inked_headed(lines: Seq<Seq<char>>)
    requires
        forall|k: int| 0 <= k < lines.len() ==> solid(#[trigger] lines[k]),
    ensures
        inked(headed(lines)).len() == inked(lines).len(),
        forall|i: int|
            0 <= i < inked(lines).len() ==> #[trigger] inked(headed(lines))[i] == if i == 0 {
                text::trimmed_start(inked(lines)[0])
            } else {
                inked(lines)[i]
            },
    decreases lines.len(),
{
    if lines.len() > 0 {
        let rest = lines.drop_first();
        assert(seq![lines[0]] + rest =~= lines);
        lemma_inked_first(lines[0], rest);
        if lines[0].len() == 0 {
            assert forall|k: int| 0 <= k < rest.len() implies solid(#[trigger] rest[k]) by {
                assert(rest[k] == lines[k + 1]);
            }
            lemma_inked_headed(rest);
        } else {
            assert(solid(lines[0]));
            lemma_trim_within(lines[0], seq![]);
            lemma_inked_first(text::trimmed_start(lines[0]), rest);
        }
    }
}

proof fn lemma_inked_tailed(lines: Seq<Seq<char>>)
    ensures
        inked(tailed(lines)) == inked(lines),
    decreases lines.len(),
{
    reveal(Seq::filter);
    if lines.len() > 0 && lines.last().len() == 0 {
        lemma_inked_tailed(lines.drop_last());
    }
}

proof fn lemma_inked_tidy(lines: Seq<Seq<char>>, code: bool, blank: bool)
    ensures
        ({
            let source = inked(lines.map_values(|line: Seq<char>| text::trimmed_end(line)));
            let out = inked(tidy_lines(lines, code, blank));
            &&& out.len() == source.len()
            &&& forall|i: int|
                #![trigger out[i]]
                0 <= i < out.len() ==> {
                    let fences = source.take(i).filter(
                        |line: Seq<char>| text::begins(text::trimmed_start(line), "```"@),
                    ).len();
                    out[i] == if text::begins(text::trimmed_start(source[i]), "```"@) || (code != (
                    fences % 2 == 1)) {
                        source[i]
                    } else {
                        squeezed_line(source[i])
                    }
                }
        }),
        forall|k: int|
            0 <= k < tidy_lines(lines, code, blank).len() ==> solid(
                #[trigger] tidy_lines(lines, code, blank)[k],
            ),
    decreases lines.len(),
{
    let fence = |line: Seq<char>| text::begins(text::trimmed_start(line), "```"@);
    let whole = lines.map_values(|line: Seq<char>| text::trimmed_end(line));
    let source = inked(whole);
    let out = inked(tidy_lines(lines, code, blank));
    if lines.len() == 0 {
        reveal(Seq::filter);
        assert(source.len() == 0);
        assert(out.len() == 0);
    } else {
        let line = text::trimmed_end(lines[0]);
        let rest = lines.drop_first();
        let behind = rest.map_values(|line: Seq<char>| text::trimmed_end(line));
        let source_rest = inked(behind);
        assert(whole =~= seq![line] + behind);
        lemma_inked_first(line, behind);
        text::lemma_trimmed_end(lines[0]);
        assert(solid(line));
        reveal_strlit("```");
        if line.len() == 0 {
            assert(text::trimmed_start(line) == line);
            assert(!is_fence(line));
            let tail = if code {
                tidy_lines(rest, true, false)
            } else {
                tidy_lines(rest, false, true)
            };
            if code {
                lemma_inked_tidy(rest, true, false);
            } else {
                lemma_inked_tidy(rest, false, true);
            }
            lemma_inked_first(line, tail);
            assert(seq![] + tail =~= tail);
            assert(tidy_lines(lines, code, blank) == seq![line] + tail || tidy_lines(
                lines,
                code,
                blank,
            ) == tail);
            assert forall|k: int| 0 <= k < tidy_lines(lines, code, blank).len() implies solid(
                #[trigger] tidy_lines(lines, code, blank)[k],
            ) by {
                if tidy_lines(lines, code, blank) == seq![line] + tail {
                    if k > 0 {
                        assert((seq![line] + tail)[k] == tail[k - 1]);
                    }
                }
            }
        } else {
            let next = if is_fence(line) {
                !code
            } else {
                code
            };
            lemma_inked_tidy(rest, next, false);
            let tail = tidy_lines(rest, next, false);
            let head = if is_fence(line) || code {
                line
            } else {
                squeezed_line(line)
            };
            lemma_squeezed_line(line);
            assert(tidy_lines(lines, code, blank) == seq![head] + tail);
            lemma_inked_first(head, tail);
            let out_rest = inked(tail);
            assert(out == seq![head] + out_rest);
            assert(source == seq![line] + source_rest);
            assert forall|i: int| #![trigger out[i]] 0 <= i < out.len() implies {
                let fences = source.take(i).filter(
                    |line: Seq<char>| text::begins(text::trimmed_start(line), "```"@),
                ).len();
                out[i] == if text::begins(text::trimmed_start(source[i]), "```"@) || (code != (fences
                    % 2 == 1)) {
                    source[i]
                } else {
                    squeezed_line(source[i])
                }
            } by {
                reveal(Seq::filter);
                if i == 0 {
                    assert(source.take(0) =~= seq![]);
                } else {
                    assert(out[i] == out_rest[i - 1]);
                    assert(source[i] == source_rest[i - 1]);
                    assert(source.take(i) =~= seq![line] + source_rest.take(i - 1));
                    Seq::filter_distributes_over_add(seq![line], source_rest.take(i - 1), fence);
                    assert(seq![line].drop_last() =~= seq![]);
                    assert(seq![line].drop_last().filter(fence) =~= seq![]);
                    assert(seq![line].filter(fence).len() == if is_fence(line) {
                        1nat
                    } else {
                        0nat
                    });
                    assert(source.take(i).filter(fence).len() == seq![line].filter(fence).len()
                        + source_rest.take(i - 1).filter(fence).len());
                }
            }
            assert forall|k: int| 0 <= k < tidy_lines(lines, code, blank).len() implies solid(
                #[trigger] tidy_lines(lines, code, blank)[k],
            ) by {
                if k > 0 {
                    assert((seq![head] + tail)[k] == tail[k - 1]);
                }
            }
        }
    }
}

/// Behind the lines a fenced code block is open: an odd number of them are fences.
pub open spec fn code_open(lines: Seq<Seq<char>>) -> bool {
    lines.filter(
        |line: Seq<char>| text::begins(text::trimmed_start(text::trimmed_end(line)), "```"@),
    ).len() % 2 == 1
}

/// Between two texts a line break stays a line break, and a blank line, whatever white space it
/// holds, stays one blank line. The second text keeps the indentation of its first line. The first
/// text ends outside of fenced code.
pub proof fn law_breaks_between_texts_are_kept(
    front: Seq<char>,
    blank: Seq<char>,
    indent: Seq<char>,
    back: Seq<char>,
)
    requires
        front.len() > 0,
        !text::is_ws(front.last()),
        back.len() > 0,
        !text::is_ws(back[0]),
        !code_open(text::lines_of(front)),
        forall|i: int| 0 <= i < blank.len() ==> text::is_ws(#[trigger] blank[i]) && blank[i] != '\n',
        forall|i: int|
            0 <= i < indent.len() ==> text::is_ws(#[trigger] indent[i]) && indent[i] != '\n',
    ensures
        normalized(front + seq!['\n'] + (indent + back)) == normalized(front) + seq!['\n'] + indent
            + normalized(back),
        normalized(front + seq!['\n'] + blank + seq!['\n'] + (indent + back)) == normalized(front)
            + seq!['\n', '\n'] + indent + normalized(back),
{
    let feed = seq!['\n'];
    let inner = indent + back;
    let a = text::lines_of(front);
    let b = text::lines_of(inner);
    let ta = tidy_lines(a, false, false);
    let tb = tidy_lines(b, false, false);
    let core = tidy_lines(text::lines_of(back), false, false);
    let nothing = Seq::<char>::empty();
    lemma_last_line(front);
    lemma_first_line(back);
    lemma_indented(indent, back);
    lemma_ended_last(ta);
    let head = ended(ta.drop_last()) + ta.last();
    assert(ended(ta) =~= head + feed);
    // A line break between.
    lemma_lines_behind(front, inner);
    assert(front + feed + inner =~= front + (feed + inner));
    lemma_plain_lines(a, b, false, false);
    lemma_ended_parts(ta, tb);
    lemma_meeting_with(ta, core, feed + indent);
    assert(ended(ta) + ended(tb) =~= head + (feed + indent) + ended(core));
    assert(normalized(front) + (feed + indent) + normalized(back) =~= normalized(front) + feed
        + indent + normalized(back));
    // One blank line between.
    let rest = blank + feed + inner;
    assert(front + feed + blank + feed + inner =~= front + (feed + rest));
    lemma_lines_behind(front, rest);
    lemma_blank_line(blank, inner);
    let c = seq![blank_line(blank)] + b;
    assert(text::lines_of(rest) == c);
    lemma_plain_lines(a, c, false, false);
    lemma_blank_trimmed(blank_line(blank));
    reveal_strlit("```");
    assert(text::trimmed_start(nothing) == nothing);
    assert(c.drop_first() =~= b);
    assert(tidy_lines(c, false, false) == seq![nothing] + tidy_lines(b, false, true));
    lemma_blank_before(b);
    lemma_ended_parts(ta, seq![nothing] + tb);
    lemma_ended_first(nothing, tb);
    let gap = seq!['\n', '\n'];
    lemma_meeting_with(ta, core, gap + indent);
    assert(ended(ta) + (nothing + feed + ended(tb)) =~= head + (gap + indent) + ended(core));
    assert(normalized(front) + (gap + indent) + normalized(back) =~= normalized(front) + gap + indent
        + normalized(back));
}

/// White space before a text that starts with something is the indentation of its first line.
proof fn lemma_indented(indent: Seq<char>, back: Seq<char>)
    requires
        back.len() > 0,
        !text::is_ws(back[0]),
        forall|i: int|
            0 <= i < indent.len() ==> text::is_ws(#[trigger] indent[i]) && indent[i] != '\n',
    ensures
        text::lines_of(indent + back).len() > 0,
        text::trimmed_end(text::lines_of(indent + back)[0]).len() > 0,
        ended(tidy_lines(text::lines_of(indent + back), false, false)) == indent + ended(
            tidy_lines(text::lines_of(back), false, false),
        ),
{
    let all = indent + back;
    assert(text::is_ws('\n') && text::is_ws('\r'));
    text::lemma_until(back, '\n');
    let n = text::until(back, '\n');
    let m = indent.len() + n;
    assert forall|i: int| 0 <= i < m implies #[trigger] all[i] != '\n' by {
        if i < indent.len() {
            assert(all[i] == indent[i]);
        } else {
            assert(all[i] == back[i - indent.len()]);
        }
    }
    if n < back.len() {
        assert(all[m as int] == back[n as int]);
    }
    text::lemma_until_is(all, '\n', m);
    assert(n > 0);
    let plain = text::lines_of(back);
    let deep = text::lines_of(all);
    let first = plain[0];
    if n < back.len() {
        assert(all.take(m as int) =~= indent + back.take(n as int));
        assert(all.skip(m as int + 1) =~= back.skip(n as int + 1));
        assert(back.take(n as int)[0] == back[0]);
        assert(first == text::without_return(back.take(n as int)));
        assert((indent + back.take(n as int)).last() == back.take(n as int).last());
        assert((indent + back.take(n as int)).drop_last() =~= indent + back.take(
            n as int,
        ).drop_last());
        assert(text::without_return(indent + back.take(n as int)) == indent + first);
    } else {
        assert(plain =~= seq![back]);
        assert(deep =~= seq![all]);
    }
    assert(first.len() > 0 && first[0] == back[0]);
    assert(deep[0] == indent + first);
    assert(deep.drop_first() =~= plain.drop_first());
    lemma_trim_end_within(indent, first);
    text::lemma_trimmed_end(first);
    let line = text::trimmed_end(first);
    if line.len() == 0 {
        assert(text::is_ws(first[0]));
    }
    assert(line[0] == first[0]);
    lemma_trim_indent(indent, line);
    assert(text::trimmed_start(line) == line);
    assert((indent + line).take(indent.len() as int) =~= indent);
    assert(line.take(0) + squeezed(line, false) =~= squeezed(line, false));
    assert(squeezed_line(indent + line) == indent + squeezed_line(line));
    let rest = plain.drop_first();
    let next = is_fence(line);
    let tail = tidy_lines(rest, next, false);
    let tidy = if is_fence(line) {
        line
    } else {
        squeezed_line(line)
    };
    assert(tidy_lines(plain, false, false) == seq![tidy] + tail);
    assert(tidy_lines(deep, false, false) == seq![indent + tidy] + tail);
    lemma_ended_first(tidy, tail);
    lemma_ended_first(indent + tidy, tail);
    assert(ended(seq![indent + tidy] + tail) =~= indent + ended(seq![tidy] + tail));
}

/// A second blank line behind a first one adds nothing, whatever follows. The text before them ends
/// outside of fenced code.
pub proof fn law_repeated_blank_lines_count_once(
    front: Seq<char>,
    blank: Seq<char>,
    again: Seq<char>,
    back: Seq<char>,
)
    requires
        front.len() > 0,
        !text::is_ws(front.last()),
        !code_open(text::lines_of(front)),
        forall|i: int| 0 <= i < blank.len() ==> text::is_ws(#[trigger] blank[i]) && blank[i] != '\n',
        forall|i: int| 0 <= i < again.len() ==> text::is_ws(#[trigger] again[i]) && again[i] != '\n',
    ensures
        normalized(front + seq!['\n'] + (blank + seq!['\n'] + (again + seq!['\n'] + back)))
            == normalized(front + seq!['\n'] + (blank + seq!['\n'] + back)),
{
    let feed = seq!['\n'];
    let a = text::lines_of(front);
    let b = text::lines_of(back);
    let nothing = Seq::<char>::empty();
    let short = blank + feed + back;
    let more = again + feed + back;
    let long = blank + feed + more;
    assert(front + feed + long =~= front + (feed + long));
    assert(front + feed + short =~= front + (feed + short));
    lemma_lines_behind(front, long);
    lemma_lines_behind(front, short);
    lemma_blank_line(blank, back);
    lemma_blank_line(blank, more);
    lemma_blank_line(again, back);
    let one = seq![blank_line(blank)] + b;
    let both = seq![blank_line(blank)] + (seq![blank_line(again)] + b);
    lemma_plain_lines(a, one, false, false);
    lemma_plain_lines(a, both, false, false);
    lemma_last_line(front);
    lemma_blank_trimmed(blank_line(blank));
    lemma_blank_trimmed(blank_line(again));
    reveal_strlit("```");
    assert(text::trimmed_start(nothing) == nothing);
    assert(one.drop_first() =~= b);
    assert(both.drop_first() =~= seq![blank_line(again)] + b);
    assert((seq![blank_line(again)] + b).drop_first() =~= b);
    assert(tidy_lines(seq![blank_line(again)] + b, false, true) == seq![] + tidy_lines(
        b,
        false,
        true,
    ));
    assert(seq![] + tidy_lines(b, false, true) =~= tidy_lines(b, false, true));
    assert(tidy_lines(both, false, false) == seq![nothing] + tidy_lines(b, false, true));
    assert(tidy_lines(one, false, false) == seq![nothing] + tidy_lines(b, false, true));
}

/// The line that blank text makes before a line feed.
spec fn blank_line(blank: Seq<char>) -> Seq<char> {
    text::without_return(blank)
}

proof fn lemma_blank_line(blank: Seq<char>, back: Seq<char>)
    requires
        forall|i: int| 0 <= i < blank.len() ==> text::is_ws(#[trigger] blank[i]) && blank[i] != '\n',
    ensures
        text::lines_of(blank + seq!['\n'] + back) == seq![blank_line(blank)] + text::lines_of(back),
        forall|i: int| 0 <= i < blank_line(blank).len() ==> text::is_ws(#[trigger] blank_line(blank)[i]),
{
    let s = blank + seq!['\n'] + back;
    let n = blank.len();
    assert forall|i: int| 0 <= i < n implies #[trigger] s[i] != '\n' by {
        assert(s[i] == blank[i]);
    }
    assert(s[n as int] == '\n');
    text::lemma_until_is(s, '\n', n);
    assert(s.take(n as int) =~= blank);
    assert(s.skip(n as int + 1) =~= back);
    assert forall|i: int| 0 <= i < blank_line(blank).len() implies text::is_ws(
        #[trigger] blank_line(blank)[i],
    ) by {
        assert(blank_line(blank)[i] == blank[i]);
    }
}

proof fn lemma_blank_trimmed(line: Seq<char>)
    requires
        forall|i: int| 0 <= i < line.len() ==> text::is_ws(#[trigger] line[i]),
    ensures
        text::trimmed_end(line) == Seq::<char>::empty(),
{
    text::lemma_trimmed_end(line);
    let t = text::trimmed_end(line);
    if t.len() > 0 {
        assert(t.last() == line[t.len() - 1]);
    }
    assert(t =~= seq![]);
}

/// A line feed behind a text that does not end in one starts a new line.
proof fn lemma_lines_behind(front: Seq<char>, back: Seq<char>)
    requires
        front.len() > 0,
        !text::is_ws(front.last()),
    ensures
        text::lines_of(front + (seq!['\n'] + back)) == text::lines_of(front) + text::lines_of(back),
    decreases front.len(),
{
    let tail = seq!['\n'] + back;
    let all = front + tail;
    assert(text::is_ws('\n') && text::is_ws('\r'));
    text::lemma_until(front, '\n');
    let n = text::until(front, '\n');
    assert forall|i: int| 0 <= i < n implies #[trigger] all[i] != '\n' by {
        assert(all[i] == front[i]);
    }
    if n < front.len() {
        let rest = front.skip(n as int + 1);
        assert(all[n as int] == front[n as int]);
        text::lemma_until_is(all, '\n', n);
        assert(front[front.len() - 1] != '\n');
        assert(rest.last() == front.last());
        assert(all.take(n as int) =~= front.take(n as int));
        assert(all.skip(n as int + 1) =~= rest + tail);
        lemma_lines_behind(rest, back);
        let line = text::without_return(front.take(n as int));
        assert(seq![line] + (text::lines_of(rest) + text::lines_of(back)) =~= (seq![line]
            + text::lines_of(rest)) + text::lines_of(back));
    } else {
        assert(all[n as int] == '\n');
        text::lemma_until_is(all, '\n', n);
        assert(all.take(n as int) =~= front);
        assert(all.skip(n as int + 1) =~= back);
        assert(text::without_return(front) == front);
        assert(text::lines_of(front) =~= seq![front]);
    }
}

proof fn lemma_code_open(lines: Seq<Seq<char>>)
    requires
        lines.len() > 0,
    ensures
        code_open(lines) == (is_fence(text::trimmed_end(lines[0])) != code_open(
            lines.drop_first(),
        )),
{
    let fence = |line: Seq<char>|
        text::begins(text::trimmed_start(text::trimmed_end(line)), "```"@);
    let head = seq![lines[0]];
    let rest = lines.drop_first();
    assert(lines =~= head + rest);
    Seq::filter_distributes_over_add(head, rest, fence);
    reveal(Seq::filter);
    assert(head.drop_last() =~= seq![]);
    assert(head.drop_last().filter(fence) =~= seq![]);
    assert(head.filter(fence).len() == if is_fence(text::trimmed_end(lines[0])) {
        1nat
    } else {
        0nat
    });
}

/// Lines of which the last holds something leave those behind them as if these came first, in or
/// outside of fenced code.
proof fn lemma_plain_lines(a: Seq<Seq<char>>, b: Seq<Seq<char>>, code: bool, blank: bool)
    ensures
        a.len() > 0 && text::trimmed_end(a.last()).len() > 0 ==> tidy_lines(a + b, code, blank)
            == tidy_lines(a, code, blank) + tidy_lines(b, code != code_open(a), false),
    decreases a.len(),
{
    if a.len() > 0 && text::trimmed_end(a.last()).len() > 0 {
        let line = text::trimmed_end(a[0]);
        let rest = a.drop_first();
        let all = a + b;
        assert(all[0] == a[0]);
        assert(all.drop_first() =~= rest + b);
        lemma_code_open(a);
        let next = code != is_fence(line);
        let first: Seq<Seq<char>> = if is_fence(line) || code {
            seq![line]
        } else if line.len() == 0 {
            if blank {
                seq![]
            } else {
                seq![line]
            }
        } else {
            seq![squeezed_line(line)]
        };
        let after = !is_fence(line) && !code && line.len() == 0;
        assert(tidy_lines(a, code, blank) == first + tidy_lines(rest, next, after));
        assert(tidy_lines(all, code, blank) == first + tidy_lines(rest + b, next, after));
        if rest.len() == 0 {
            assert(a.last() == a[0]);
            assert(rest + b =~= b);
            reveal(Seq::filter);
            assert(!code_open(rest));
            assert(tidy_lines(rest, next, after) =~= seq![]);
            assert(tidy_lines(a, code, blank) =~= first);
        } else {
            assert(rest.last() == a.last());
            lemma_plain_lines(rest, b, next, after);
            let end = code != code_open(a);
            assert(end == (next != code_open(rest)));
            assert(first + (tidy_lines(rest, next, after) + tidy_lines(b, end, false)) =~= (first
                + tidy_lines(rest, next, after)) + tidy_lines(b, end, false));
        }
    }
}

/// Lines of which the first holds something come out the same behind a blank line.
proof fn lemma_blank_before(lines: Seq<Seq<char>>)
    requires
        lines.len() > 0,
        text::trimmed_end(lines[0]).len() > 0,
    ensures
        tidy_lines(lines, false, true) == tidy_lines(lines, false, false),
{
}

proof fn lemma_ended_parts(a: Seq<Seq<char>>, b: Seq<Seq<char>>)
    ensures
        ended(a + b) == ended(a) + ended(b),
    decreases a.len(),
{
    if a.len() == 0 {
        assert(a + b =~= b);
        assert(ended(a) + ended(b) =~= ended(b));
    } else {
        assert((a + b).drop_first() =~= a.drop_first() + b);
        lemma_ended_parts(a.drop_first(), b);
        assert(ended(a + b) =~= ended(a) + ended(b));
    }
}

/// The last line of a text that ends in something, tidied, ends in something.
proof fn lemma_last_line(s: Seq<char>)
    requires
        s.len() > 0,
        !text::is_ws(s.last()),
    ensures
        ({
            let lines = text::lines_of(s);
            let tidy = tidy_lines(lines, false, false);
            &&& lines.len() > 0
            &&& text::trimmed_end(lines.last()).len() > 0
            &&& tidy.len() > 0
            &&& tidy.last().len() > 0
            &&& solid(tidy.last())
        }),
{
    let lines = text::lines_of(s);
    lemma_last_line_ends(s);
    lemma_squeezed_line(lines.last());
    lemma_tidy_last(lines, false, false);
}

proof fn lemma_last_line_ends(s: Seq<char>)
    requires
        s.len() > 0,
        !text::is_ws(s.last()),
    ensures
        text::lines_of(s).len() > 0,
        text::lines_of(s).last().len() > 0,
        text::lines_of(s).last().last() == s.last(),
        text::trimmed_end(text::lines_of(s).last()) == text::lines_of(s).last(),
    decreases s.len(),
{
    assert(text::is_ws('\n'));
    text::lemma_until(s, '\n');
    let n = text::until(s, '\n') as int;
    if n < s.len() {
        let rest = s.skip(n + 1);
        assert(s[s.len() - 1] != '\n');
        assert(rest.last() == s.last());
        lemma_last_line_ends(rest);
        assert(text::lines_of(s).last() == text::lines_of(rest).last());
    } else {
        assert(text::lines_of(s).last() == s);
    }
}

proof fn lemma_tidy_last(lines: Seq<Seq<char>>, code: bool, blank: bool)
    requires
        lines.len() > 0,
        text::trimmed_end(lines.last()).len() > 0,
    ensures
        tidy_lines(lines, code, blank).len() > 0,
        tidy_lines(lines, code, blank).last() == text::trimmed_end(lines.last()) || tidy_lines(
            lines,
            code,
            blank,
        ).last() == squeezed_line(text::trimmed_end(lines.last())),
    decreases lines.len(),
{
    let line = text::trimmed_end(lines[0]);
    let rest = lines.drop_first();
    let next = code != is_fence(line);
    let after = !is_fence(line) && !code && line.len() == 0;
    if rest.len() == 0 {
        assert(lines.last() == lines[0]);
        assert(tidy_lines(rest, next, after) =~= seq![]);
        assert(tidy_lines(lines, code, blank) =~= if is_fence(line) || code {
            seq![line]
        } else {
            seq![squeezed_line(line)]
        });
    } else {
        assert(rest.last() == lines.last());
        lemma_tidy_last(rest, next, after);
    }
}

/// The first line of a text that starts with something, tidied, starts with something.
proof fn lemma_first_line(s: Seq<char>)
    requires
        s.len() > 0,
        !text::is_ws(s[0]),
    ensures
        text::lines_of(s).len() > 0,
        text::trimmed_end(text::lines_of(s)[0]).len() > 0,
        tidy_lines(text::lines_of(s), false, false).len() > 0,
        tidy_lines(text::lines_of(s), false, false)[0].len() > 0,
        !text::is_ws(tidy_lines(text::lines_of(s), false, false)[0][0]),
{
    assert(text::is_ws('\n') && text::is_ws('\r'));
    text::lemma_until(s, '\n');
    let n = text::until(s, '\n') as int;
    let first = text::lines_of(s)[0];
    assert(n > 0);
    if n < s.len() {
        assert(s.take(n)[0] == s[0]);
    }
    assert(first.len() > 0 && first[0] == s[0]);
    text::lemma_trimmed_end(first);
    let line = text::trimmed_end(first);
    if line.len() == 0 {
        assert(text::is_ws(first[0]));
    }
    assert(line[0] == first[0]);
    assert(text::trimmed_start(line) == line);
    assert(line.take(0) + squeezed(line, false) =~= squeezed(line, false));
    assert(squeezed(line, false)[0] == line[0]);
}

/// Two lists of lines that meet where both hold something keep what stands between them.
proof fn lemma_meeting_with(a: Seq<Seq<char>>, b: Seq<Seq<char>>, sep: Seq<char>)
    requires
        a.len() > 0,
        a.last().len() > 0,
        solid(a.last()),
        b.len() > 0,
        b[0].len() > 0,
        !text::is_ws(b[0][0]),
    ensures
        text::trimmed((ended(a.drop_last()) + a.last()) + sep + ended(b)) == text::trimmed(ended(a))
            + sep + text::trimmed(ended(b)),
{
    let head = ended(a.drop_last()) + a.last();
    let tail = ended(b);
    lemma_ended_last(a);
    assert(ended(a) =~= head + seq!['\n']);
    assert(head.last() == a.last().last());
    assert(tail[0] == b[0][0]);
    let whole = head + sep + tail;
    // At the start.
    lemma_trim_within(head, sep + tail);
    assert(head + (sep + tail) =~= whole);
    lemma_trim_within(head, seq!['\n']);
    let core = text::trimmed_start(head);
    text::lemma_trimmed_start(head);
    assert(core.last() == head.last());
    assert(text::trimmed_start(whole) == core + (sep + tail));
    assert(text::trimmed_start(ended(a)) == core + seq!['\n']);
    // At the end.
    assert(text::is_ws('\n'));
    let line = core + seq!['\n'];
    assert(line.last() == '\n');
    assert(line.drop_last() =~= core);
    assert(!text::is_ws(core.last()));
    assert(text::trimmed_end(core) == core);
    assert(text::trimmed_end(line) == core);
    assert(text::trimmed(ended(a)) == core);
    lemma_trim_end_within(core + sep, tail);
    assert(core + (sep + tail) =~= core + sep + tail);
    assert(text::trimmed_start(tail) == tail);
    assert(core + sep + text::trimmed_end(tail) =~= core + sep + text::trimmed(tail));
}

/// Trimming behind a text that starts with something stays within it.
proof fn lemma_trim_end_within(front: Seq<char>, s: Seq<char>)
    requires
        s.len() > 0,
        !text::is_ws(s[0]),
    ensures
        text::trimmed_end(front + s) == front + text::trimmed_end(s),
    decreases s.len(),
{
    assert((front + s).last() == s.last());
    if text::is_ws(s.last()) {
        assert(s.len() > 1);
        assert((front + s).drop_last() =~= front + s.drop_last());
        assert(s.drop_last()[0] == s[0]);
        lemma_trim_end_within(front, s.drop_last());
    }
}

/// HTML that can be converted comes out as tidy Markdown, and the error of the converter is handed
/// on. What is too large or too deep is refused.
pub proof fn law_converted_html_is_tidied(html: Seq<char>)
    ensures
        !error::parseable(html) ==> converted(html) == Err::<Seq<char>, ErrorModel>(
            ErrorModel::DocumentTooLarge,
        ),
        error::parseable(html) && !dom::flat_tree(converter_counts(html)) ==> converted(html)
            == Err::<Seq<char>, ErrorModel>(ErrorModel::TooDeep),
        error::parseable(html) && dom::flat_tree(converter_counts(html)) ==> match markdown_of(html) {
            Ok(md) => converted(html) == Ok::<Seq<char>, ErrorModel>(normalized(md)),
            Err(cause) => converted(html) == Err::<Seq<char>, ErrorModel>(
                ErrorModel::Markdown { cause },
            ),
        },
{
}

/// Within fenced code every blank line is kept: what follows comes out the same, with as many blank
/// lines before it as the source has.
pub proof fn law_blank_lines_of_code_are_kept(
    front: Seq<char>,
    blank: Seq<char>,
    again: Seq<char>,
    back: Seq<char>,
)
    requires
        front.len() > 0,
        !text::is_ws(front.last()),
        back.len() > 0,
        !text::is_ws(back[0]),
        code_open(text::lines_of(front)),
        forall|i: int| 0 <= i < blank.len() ==> text::is_ws(#[trigger] blank[i]) && blank[i] != '\n',
        forall|i: int| 0 <= i < again.len() ==> text::is_ws(#[trigger] again[i]) && again[i] != '\n',
    ensures
        exists|rest: Seq<char>|
            {
                &&& rest.len() > 0
                &&& rest[0] == back[0]
                &&& normalized(front + seq!['\n'] + back) == #[trigger] (normalized(front) + seq![
                    '\n',
                ] + rest)
                &&& normalized(front + seq!['\n'] + (blank + seq!['\n'] + back)) == normalized(front)
                    + seq!['\n', '\n'] + rest
                &&& normalized(
                    front + seq!['\n'] + (blank + seq!['\n'] + (again + seq!['\n'] + back)),
                ) == normalized(front) + seq!['\n', '\n', '\n'] + rest
            },
{
    let feed = seq!['\n'];
    let nothing = Seq::<char>::empty();
    let a = text::lines_of(front);
    let b = text::lines_of(back);
    let ta = tidy_lines(a, false, false);
    let core = tidy_lines(b, true, false);
    lemma_last_line(front);
    lemma_first_code_line(back);
    lemma_ended_last(ta);
    let head = ended(ta.drop_last()) + ta.last();
    assert(ended(ta) =~= head + feed);
    let rest = text::trimmed(ended(core));
    assert(ended(core)[0] == core[0][0]);
    lemma_trim_end_within(nothing, ended(core));
    assert(nothing + ended(core) =~= ended(core));
    assert(text::trimmed_start(ended(core)) == ended(core));
    text::lemma_trimmed_end(ended(core));
    if rest.len() == 0 {
        assert(text::is_ws(ended(core)[0]));
    }
    assert(rest[0] == ended(core)[0]);
    // No blank line.
    lemma_lines_behind(front, back);
    assert(front + feed + back =~= front + (feed + back));
    lemma_plain_lines(a, b, false, false);
    lemma_ended_parts(ta, core);
    lemma_meeting_with(ta, core, feed);
    assert(ended(ta) + ended(core) =~= head + feed + ended(core));
    // One and two of them.
    let short = blank + feed + back;
    let more = again + feed + back;
    let long = blank + feed + more;
    assert(front + feed + short =~= front + (feed + short));
    assert(front + feed + long =~= front + (feed + long));
    lemma_lines_behind(front, short);
    lemma_lines_behind(front, long);
    lemma_blank_line(blank, back);
    lemma_blank_line(again, back);
    lemma_blank_line(blank, more);
    lemma_blank_trimmed(blank_line(blank));
    lemma_blank_trimmed(blank_line(again));
    reveal_strlit("```");
    assert(text::trimmed_start(nothing) == nothing);
    let one = seq![blank_line(blank)] + b;
    let last = seq![blank_line(again)] + b;
    let both = seq![blank_line(blank)] + last;
    assert(one.drop_first() =~= b);
    assert(last.drop_first() =~= b);
    assert(both.drop_first() =~= last);
    lemma_plain_lines(a, one, false, false);
    lemma_plain_lines(a, both, false, false);
    assert(tidy_lines(one, true, false) == seq![nothing] + core);
    assert(tidy_lines(last, true, false) == seq![nothing] + core);
    assert(tidy_lines(both, true, false) == seq![nothing] + (seq![nothing] + core));
    lemma_ended_first(nothing, core);
    lemma_ended_first(nothing, seq![nothing] + core);
    lemma_ended_parts(ta, seq![nothing] + core);
    lemma_ended_parts(ta, seq![nothing] + (seq![nothing] + core));
    lemma_meeting_with(ta, core, seq!['\n', '\n']);
    lemma_meeting_with(ta, core, seq!['\n', '\n', '\n']);
    assert(ended(ta) + ended(seq![nothing] + core) =~= head + seq!['\n', '\n'] + ended(core));
    assert(ended(ta) + ended(seq![nothing] + (seq![nothing] + core)) =~= head + seq![
        '\n',
        '\n',
        '\n',
    ] + ended(core));
    assert(normalized(front + feed + back) == normalized(front) + feed + rest);
}

proof fn lemma_first_code_line(s: Seq<char>)
    requires
        s.len() > 0,
        !text::is_ws(s[0]),
    ensures
        tidy_lines(text::lines_of(s), true, false).len() > 0,
        tidy_lines(text::lines_of(s), true, false)[0].len() > 0,
        tidy_lines(text::lines_of(s), true, false)[0][0] == s[0],
{
    assert(text::is_ws('\n') && text::is_ws('\r'));
    text::lemma_until(s, '\n');
    let n = text::until(s, '\n') as int;
    let first = text::lines_of(s)[0];
    assert(n > 0);
    if n < s.len() {
        assert(s.take(n)[0] == s[0]);
    }
    assert(first.len() > 0 && first[0] == s[0]);
    text::lemma_trimmed_end(first);
    let line = text::trimmed_end(first);
    if line.len() == 0 {
        assert(text::is_ws(first[0]));
    }
    assert(line[0] == first[0]);
}

/// Tidying a text that was tidied gives it back, with every character of the first one that is no
/// white space.
pub proof fn law_tidying_twice_is_tidying_once(
    md: &str,
    once: String,
    again: &str,
    twice: String,
)
    requires
        call_ensures(normalize, (md,), once),
        again@ == once@,
        call_ensures(normalize, (again,), twice),
    ensures
        twice@ == once@,
        shown(twice@) == shown(md@),
{
    law_normalizing_again_changes_nothing(md@);
    law_normalizing_keeps_what_shows(md@);
}

/// Collapsing the spaces of a line gives a line that starts with the same white space and shows the
/// same characters.
pub proof fn law_collapsing_keeps_indentation_and_characters(
    line: &[char],
    n: int,
    tight: Vec<char>,
)
    requires
        call_ensures(collapse_spaces, (line,), tight),
        0 <= n < line@.len(),
        forall|i: int| 0 <= i < n ==> text::is_ws(#[trigger] line@[i]),
        !text::is_ws(line@[n]),
    ensures
        tight@.len() > n,
        tight@.take(n) == line@.take(n),
        tight@[n] == line@[n],
        shown(tight@) == shown(line@),
{
    law_indentation_is_kept(line@, n);
    lemma_shown_squeezed_line(line@);
}

} // verus!
