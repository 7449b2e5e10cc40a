//! Token-budget truncation: cap distilled output to a maximum token count.
//!
//! Output is cut at paragraph boundaries (blank lines) where possible, and a marker says that
//! something was cut.

use vstd::prelude::*;

use crate::text;
use crate::tokens;

verus! {

/// Appended to truncated output so that its reader knows that content was dropped.
pub const TRUNCATION_MARKER: &'static str = "\n\n…(truncated to fit token budget)";

/// The longest of the markers that a budget of `max` tokens can pay for.
pub open spec fn marker(max: usize) -> Seq<char> {
    if tokens::costs_at_most(TRUNCATION_MARKER@, max) {
        TRUNCATION_MARKER@
    } else if tokens::costs_at_most("\n\n…(truncated)"@, max) {
        "\n\n…(truncated)"@
    } else if tokens::costs_at_most("\n\n…"@, max) {
        "\n\n…"@
    } else if tokens::costs_at_most("…"@, max) {
        "…"@
    } else {
        ""@
    }
}

/// `existing` with one more paragraph behind it.
pub open spec fn with_paragraph(existing: Seq<char>, para: Seq<char>) -> Seq<char> {
    if existing.len() == 0 {
        para
    } else {
        existing + "\n\n"@ + para
    }
}

/// Where a binary search for the longest affordable prefix ends, over the prefix lengths from
/// `low` to `high`.
pub open spec fn longest_from(
    text: Seq<char>,
    mark: Seq<char>,
    max: usize,
    low: int,
    high: int,
) -> int
    decreases high - low,
{
    if low < high {
        let mid = (low + high + 1) / 2;
        if tokens::costs_at_most(text::trimmed_end(text.take(mid)) + mark, max) {
            longest_from(text, mark, max, mid, high)
        } else {
            longest_from(text, mark, max, low, mid - 1)
        }
    } else {
        low
    }
}

/// A prefix of `text` that fits the budget together with the marker.
pub open spec fn prefix_within(text: Seq<char>, mark: Seq<char>, max: usize) -> Seq<char> {
    let body = text::trimmed_end(text);
    if body.len() == 0 || !tokens::costs_at_most(mark, max) {
        seq![]
    } else {
        text::trimmed_end(body.take(longest_from(body, mark, max, 0, body.len() as int)))
    }
}

/// What is kept when `paras` follow the text `kept` already taken: whole paragraphs as long as
/// they fit together with the marker, and a prefix of the first one where not even that fits.
pub open spec fn taken(
    paras: Seq<Seq<char>>,
    kept: Seq<char>,
    mark: Seq<char>,
    max: usize,
) -> Seq<char>
    decreases paras.len(),
{
    if paras.len() == 0 {
        kept
    } else {
        let para = text::trimmed_end(paras[0]);
        let candidate = with_paragraph(kept, para);
        if para.len() == 0 {
            taken(paras.drop_first(), kept, mark, max)
        } else if tokens::costs_at_most(candidate + mark, max) {
            taken(paras.drop_first(), candidate, mark, max)
        } else if kept.len() == 0 {
            prefix_within(para, mark, max)
        } else {
            kept
        }
    }
}

/// The text without its marker, as far as the budget reaches.
pub open spec fn shortened(markdown: Seq<char>, max: usize) -> Seq<char> {
    let body = taken(text::parts(markdown, "\n\n"@), seq![], marker(max), max);
    if body.len() == 0 {
        prefix_within(text::trimmed_end(markdown), marker(max), max)
    } else {
        body
    }
}

/// The text passes through untouched: there is no budget, or it is large enough.
pub open spec fn untouched(markdown: Seq<char>, max: usize) -> bool {
    max == 0 || tokens::costs_at_most(markdown, max)
}

/// What a budget of `max` tokens makes of `markdown`.
pub open spec fn fitted(markdown: Seq<char>, max: usize) -> Seq<char> {
    if untouched(markdown, max) {
        markdown
    } else if tokens::costs_at_most(shortened(markdown, max) + marker(max), max) {
        shortened(markdown, max) + marker(max)
    } else {
        marker(max)
    }
}

/// Fits `markdown` within `max_tokens`, cutting at paragraph boundaries where possible and
/// inside a paragraph where that one alone is too large. The marker is part of the budget. A
/// budget of 0 is no budget. The flag says whether something was cut.
pub fn fit(markdown: &str, max_tokens: usize) -> (r: (String, bool))
    ensures
        r.0@ == fitted(markdown@, max_tokens),
        r.1 == !untouched(markdown@, max_tokens),
        max_tokens > 0 ==> tokens::costs_at_most(r.0@, max_tokens),
{
    if max_tokens == 0 || tokens::within(markdown, max_tokens) {
        return (markdown.to_string(), false);
    }
    let mark = marker_for(max_tokens);
    let chars = text::to_chars(markdown);
    let paras = text::split_parts(chars.as_slice(), paragraph_break().as_slice());
    let ghost all = text::texts(paras@);
    let mut out = String::new();
    let mut i: usize = 0;
    let mut open = true;
    assert(all.skip(0) == all);
    assert(out@ =~= seq![]);
    while open && i < paras.len()
        invariant
            i <= paras@.len(),
            all == text::texts(paras@),
            mark@ == marker(max_tokens),
            open ==> taken(all.skip(i as int), out@, mark@, max_tokens) == taken(
                all,
                seq![],
                mark@,
                max_tokens,
            ),
            !open ==> out@ == taken(all, seq![], mark@, max_tokens),
        decreases paras@.len() - i,
    {
        let ghost rest = all.skip(i as int);
        assert(rest[0] == paras@[i as int]@);
        assert(rest.drop_first() == all.skip(i + 1));
        let para = text::trim_end(paras[i].as_slice());
        if para.len() > 0 {
            let body = text::from_chars(para);
            let candidate = append_paragraph(out.as_str(), body.as_str());
            if fits(candidate.as_str(), mark, max_tokens) {
                out = candidate;
            } else {
                if out.as_str().is_empty() {
                    out = bounded_prefix(para, mark, max_tokens);
                }
                open = false;
            }
        }
        i = i + 1;
    }
    if out.as_str().is_empty() {
        out = bounded_prefix(text::trim_end(chars.as_slice()), mark, max_tokens);
    }
    out.push_str(mark);
    if tokens::within(out.as_str(), max_tokens) {
        (out, true)
    } else {
        (mark.to_string(), true)
    }
}

fn paragraph_break() -> (r: Vec<char>)
    ensures
        r@ == "\n\n"@,
        r@.len() == 2,
{
    proof {
        reveal_strlit("\n\n");
    }
    text::to_chars("\n\n")
}

fn marker_for(max_tokens: usize) -> (r: &'static str)
    ensures
        r@ == marker(max_tokens),
        tokens::costs_at_most(r@, max_tokens),
{
    if tokens::within(TRUNCATION_MARKER, max_tokens) {
        return TRUNCATION_MARKER;
    }
    if tokens::within("\n\n…(truncated)", max_tokens) {
        return "\n\n…(truncated)";
    }
    if tokens::within("\n\n…", max_tokens) {
        return "\n\n…";
    }
    if tokens::within("…", max_tokens) {
        return "…";
    }
    proof {
        reveal_strlit("");
    }
    let nothing = "";
    let affordable = tokens::within(nothing, max_tokens);
    assert(affordable);
    nothing
}

fn append_paragraph(existing: &str, para: &str) -> (r: String)
    ensures
        r@ == with_paragraph(existing@, para@),
{
    if existing.is_empty() {
        return para.to_string();
    }
    let mut out = existing.to_string();
    out.push_str("\n\n");
    out.push_str(para);
    out
}

fn fits(body: &str, mark: &str, max_tokens: usize) -> (r: bool)
    ensures
        r == tokens::costs_at_most(body@ + mark@, max_tokens),
{
    let mut candidate = body.to_string();
    candidate.push_str(mark);
    tokens::within(candidate.as_str(), max_tokens)
}

fn bounded_prefix(text: &[char], mark: &str, max_tokens: usize) -> (r: String)
    ensures
        r@ == prefix_within(text@, mark@, max_tokens),
{
    let body = text::trim_end(text);
    if body.len() == 0 || !tokens::within(mark, max_tokens) {
        return String::new();
    }
    let mut low: usize = 0;
    let mut high: usize = body.len();
    while low < high
        invariant
            low <= high <= body@.len(),
            longest_from(body@, mark@, max_tokens, low as int, high as int) == longest_from(
                body@,
                mark@,
                max_tokens,
                0,
                body@.len() as int,
            ),
        decreases high - low,
    {
        let mid: usize = low + (high - low - 1) / 2 + 1;
        assert(mid == (low + high + 1) / 2);
        let prefix = text::from_chars(
            text::trim_end(vstd::slice::slice_subrange(body, 0, mid)),
        );
        assert(body@.subrange(0, mid as int) == body@.take(mid as int));
        if fits(prefix.as_str(), mark, max_tokens) {
            low = mid;
        } else {
            high = mid - 1;
        }
    }
    let kept = vstd::slice::slice_subrange(body, 0, low);
    assert(kept@ == body@.take(low as int));
    text::from_chars(text::trim_end(kept))
}

/// Cut output ends in the marker that the budget can pay for.
pub proof fn law_cut_output_ends_in_marker(markdown: Seq<char>, max: usize)
    requires
        !untouched(markdown, max),
    ensures
        text::ends(fitted(markdown, max), marker(max)),
{
    let m = marker(max);
    let f = fitted(markdown, max);
    assert(f.subrange(f.len() - m.len(), f.len() as int) =~= m);
}

/// The paragraphs of a text that hold something: the stretches between blank lines, without the
/// white space at their ends.
pub open spec fn paragraphs(markdown: Seq<char>) -> Seq<Seq<char>> {
    text::parts(markdown, "\n\n"@).map_values(|p: Seq<char>| text::trimmed_end(p)).filter(
        |p: Seq<char>| p.len() > 0,
    )
}

/// A text that is cut keeps whole paragraphs from its start on as long as they fit together with
/// the marker: it stops only where one more paragraph would not fit, or none is left.
pub proof fn law_cutting_stops_where_no_paragraph_fits(markdown: Seq<char>, max: usize)
    requires
        !untouched(markdown, max),
        paragraphs(markdown).len() > 0,
        tokens::costs_at_most(paragraphs(markdown)[0] + marker(max), max),
    ensures
        exists|k: int|
            #![trigger paragraphs(markdown).take(k)]
            {
                let paras = paragraphs(markdown);
                &&& 1 <= k <= paras.len()
                &&& fitted(markdown, max) == text::joined(paras.take(k), "\n\n"@) + marker(max)
                &&& forall|j: int|
                    1 <= j <= k ==> tokens::costs_at_most(
                        text::joined(#[trigger] paragraphs(markdown).take(j), "\n\n"@) + marker(max),
                        max,
                    )
                &&& k < paras.len() ==> !tokens::costs_at_most(
                    text::joined(paras.take(k + 1), "\n\n"@) + marker(max),
                    max,
                )
            },
{
    let mark = marker(max);
    let parts = text::parts(markdown, "\n\n"@);
    let paras = paragraphs(markdown);
    assert(filled(parts) == paras);
    assert(paras.skip(0) =~= paras);
    assert(paras.take(0) =~= seq![]);
    assert forall|i: int| 0 <= i < paras.len() implies (#[trigger] paras[i]).len() > 0 by {
        lemma_paragraph(parts, i);
    }
    let k = lemma_taken(parts, seq![], paras, 0, mark, max);
    lemma_joined_first(paras);
    assert(text::joined(paras.take(1), "\n\n"@) + mark == paras[0] + mark);
    assert(paragraphs(markdown).take(k) == paras.take(k));
}

/// Where not even the first paragraph fits, it is cut itself: what is kept of it is a start of it
/// that could not be longer by one character.
pub proof fn law_a_large_paragraph_is_cut_where_no_character_fits(markdown: Seq<char>, max: usize)
    requires
        !untouched(markdown, max),
        tokens::costs_at_most(marker(max), max),
        paragraphs(markdown).len() > 0,
        !tokens::costs_at_most(paragraphs(markdown)[0] + marker(max), max),
    ensures
        exists|n: int|
            #![trigger paragraphs(markdown)[0].take(n)]
            {
                let para = paragraphs(markdown)[0];
                let kept = text::trimmed_end(para.take(n));
                &&& 0 <= n < para.len()
                &&& !tokens::costs_at_most(
                    text::trimmed_end(para.take(n + 1)) + marker(max),
                    max,
                )
                &&& kept.len() > 0 ==> fitted(markdown, max) == kept + marker(max)
                    && tokens::costs_at_most(kept + marker(max), max)
            },
{
    let mark = marker(max);
    let parts = text::parts(markdown, "\n\n"@);
    let paras = paragraphs(markdown);
    lemma_first_paragraph(parts, mark, max);
    let para = paras[0];
    lemma_paragraph(parts, 0);
    assert(text::trimmed_end(para) == para);
    let n = longest_from(para, mark, max, 0, para.len() as int);
    assert(para.take(para.len() as int) =~= para);
    assert(para.take(0) =~= seq![]);
    assert(text::trimmed_end(para.take(0)) =~= seq![]);
    assert(seq![] + mark =~= mark);
    lemma_longest(para, mark, max, 0, para.len() as int);
    assert(n < para.len());
    let kept = text::trimmed_end(para.take(n));
    assert(taken(parts, seq![], mark, max) == kept);
}

/// A text that is cut to nothing but white space leaves the marker alone.
pub proof fn law_a_blank_text_leaves_the_marker(markdown: Seq<char>, max: usize)
    requires
        !untouched(markdown, max),
        forall|i: int| 0 <= i < markdown.len() ==> text::is_ws(#[trigger] markdown[i]),
    ensures
        fitted(markdown, max) == marker(max),
{
    let parts = text::parts(markdown, "\n\n"@);
    lemma_blank_parts(markdown);
    lemma_blank_taken(parts, marker(max), max);
    text::lemma_trimmed_end(markdown);
    let t = text::trimmed_end(markdown);
    if t.len() > 0 {
        assert(t.last() == markdown[t.len() - 1]);
    }
    assert(text::trimmed_end(t) == t);
    assert(seq![] + marker(max) =~= marker(max));
    assert(shortened(markdown, max) =~= seq![]);
}

proof fn lemma_blank_parts(s: Seq<char>)
    requires
        forall|i: int| 0 <= i < s.len() ==> text::is_ws(#[trigger] s[i]),
    ensures
        forall|k: int, i: int|
            0 <= k < text::parts(s, "\n\n"@).len() && 0 <= i < text::parts(s, "\n\n"@)[k].len()
                ==> text::is_ws(#[trigger] text::parts(s, "\n\n"@)[k][i]),
    decreases s.len(),
{
    reveal_strlit("\n\n");
    let all = text::parts(s, "\n\n"@);
    match text::next_at(s, "\n\n"@, 0) {
        Some(i) => {
            if 0 <= i && i + 2 <= s.len() {
                let rest = s.skip(i + 2);
                assert forall|j: int| 0 <= j < rest.len() implies text::is_ws(#[trigger] rest[j]) by {
                    assert(rest[j] == s[i + 2 + j]);
                }
                lemma_blank_parts(rest);
                assert forall|k: int, j: int|
                    0 <= k < all.len() && 0 <= j < all[k].len() implies text::is_ws(
                    #[trigger] text::parts(s, "\n\n"@)[k][j],
                ) by {
                    if k == 0 {
                        assert(all[0] == s.take(i));
                        assert(all[0][j] == s[j]);
                    } else {
                        assert(all[k] == text::parts(rest, "\n\n"@)[k - 1]);
                    }
                }
            }
        },
        None => {},
    }
}

proof fn lemma_blank_taken(paras: Seq<Seq<char>>, mark: Seq<char>, max: usize)
    requires
        forall|k: int, i: int|
            0 <= k < paras.len() && 0 <= i < paras[k].len() ==> text::is_ws(#[trigger] paras[k][i]),
    ensures
        taken(paras, seq![], mark, max) == Seq::<char>::empty(),
    decreases paras.len(),
{
    if paras.len() > 0 {
        let p = text::trimmed_end(paras[0]);
        text::lemma_trimmed_end(paras[0]);
        if p.len() > 0 {
            assert(p.last() == paras[0][p.len() - 1]);
        }
        let rest = paras.drop_first();
        assert forall|k: int, i: int| 0 <= k < rest.len() && 0 <= i < rest[k].len() implies text::is_ws(
            #[trigger] rest[k][i],
        ) by {
            assert(rest[k][i] == paras[k + 1][i]);
        }
        lemma_blank_taken(rest, mark, max);
    }
}

/// What trimming leaves of the parts, without the empty ones.
spec fn filled(parts: Seq<Seq<char>>) -> Seq<Seq<char>> {
    parts.map_values(|p: Seq<char>| text::trimmed_end(p)).filter(|p: Seq<char>| p.len() > 0)
}

proof fn lemma_filled(parts: Seq<Seq<char>>)
    requires
        parts.len() > 0,
    ensures
        filled(parts) == if text::trimmed_end(parts[0]).len() > 0 {
            seq![text::trimmed_end(parts[0])] + filled(parts.drop_first())
        } else {
            filled(parts.drop_first())
        },
{
    let head = seq![text::trimmed_end(parts[0])];
    let all = parts.map_values(|p: Seq<char>| text::trimmed_end(p));
    let tail = parts.drop_first().map_values(|p: Seq<char>| text::trimmed_end(p));
    let full = |p: Seq<char>| p.len() > 0;
    assert(all =~= head + tail);
    Seq::filter_distributes_over_add(head, tail, full);
    reveal(Seq::filter);
    assert(head.drop_last() =~= seq![]);
    assert(head.drop_last().filter(full) =~= seq![]);
    assert(head.filter(full) =~= if head[0].len() > 0 {
        head
    } else {
        seq![]
    });
    assert(seq![] + tail.filter(full) =~= tail.filter(full));
}

proof fn lemma_paragraph(parts: Seq<Seq<char>>, i: int)
    requires
        0 <= i < filled(parts).len(),
    ensures
        filled(parts)[i].len() > 0,
        !text::is_ws(filled(parts)[i].last()),
    decreases parts.len(),
{
    if parts.len() > 0 {
        lemma_filled(parts);
        text::lemma_trimmed_end(parts[0]);
        let here: int = if text::trimmed_end(parts[0]).len() > 0 {
            1
        } else {
            0
        };
        if i >= here {
            lemma_paragraph(parts.drop_first(), i - here);
        }
    } else {
        reveal(Seq::filter);
        assert(filled(parts).len() == 0);
    }
}

proof fn lemma_joined_first(paras: Seq<Seq<char>>)
    requires
        paras.len() > 0,
    ensures
        text::joined(paras.take(1), "\n\n"@) == paras[0],
{
}

/// Joining is by one paragraph after the other.
proof fn lemma_joined_next(paras: Seq<Seq<char>>, n: int)
    requires
        0 <= n < paras.len(),
        forall|i: int| 0 <= i < paras.len() ==> (#[trigger] paras[i]).len() > 0,
    ensures
        text::joined(paras.take(n + 1), "\n\n"@) == with_paragraph(
            text::joined(paras.take(n), "\n\n"@),
            paras[n],
        ),
        text::joined(paras.take(n), "\n\n"@).len() > 0 <==> n > 0,
    decreases n,
{
    assert(paras.take(n + 1).drop_last() =~= paras.take(n));
    if n > 0 {
        lemma_joined_next(paras, n - 1);
        assert(paras[n - 1].len() > 0);
    }
}

/// How many paragraphs are taken.
proof fn lemma_taken(
    parts: Seq<Seq<char>>,
    kept: Seq<char>,
    paras: Seq<Seq<char>>,
    n: int,
    mark: Seq<char>,
    max: usize,
) -> (k: int)
    requires
        0 <= n <= paras.len(),
        filled(parts) == paras.skip(n),
        kept == text::joined(paras.take(n), "\n\n"@),
        forall|i: int| 0 <= i < paras.len() ==> (#[trigger] paras[i]).len() > 0,
        paras.len() > 0,
        tokens::costs_at_most(paras[0] + mark, max),
        forall|j: int|
            1 <= j <= n ==> tokens::costs_at_most(
                #[trigger] text::joined(paras.take(j), "\n\n"@) + mark,
                max,
            ),
    ensures
        n <= k <= paras.len(),
        1 <= k,
        taken(parts, kept, mark, max) == text::joined(paras.take(k), "\n\n"@),
        taken(parts, kept, mark, max).len() > 0,
        forall|j: int|
            1 <= j <= k ==> tokens::costs_at_most(
                #[trigger] text::joined(paras.take(j), "\n\n"@) + mark,
                max,
            ),
        k < paras.len() ==> !tokens::costs_at_most(
            text::joined(paras.take(k + 1), "\n\n"@) + mark,
            max,
        ),
    decreases parts.len(),
{
    if n < paras.len() {
        lemma_joined_next(paras, n);
    }
    if n > 0 {
        lemma_joined_next(paras, n - 1);
    }
    if parts.len() == 0 {
        reveal(Seq::filter);
        assert(filled(parts).len() == 0);
        assert(paras.skip(n).len() == 0);
        n
    } else {
        lemma_filled(parts);
        let para = text::trimmed_end(parts[0]);
        let rest = parts.drop_first();
        if para.len() == 0 {
            lemma_taken(rest, kept, paras, n, mark, max)
        } else {
            assert(paras.skip(n)[0] == para);
            assert(paras[n] == para);
            assert(filled(rest) =~= paras.skip(n + 1)) by {
                assert(paras.skip(n).skip(1) =~= paras.skip(n + 1));
                assert((seq![para] + filled(rest)).skip(1) =~= filled(rest));
            }
            let candidate = with_paragraph(kept, para);
            assert(candidate == text::joined(paras.take(n + 1), "\n\n"@));
            if tokens::costs_at_most(candidate + mark, max) {
                lemma_taken(rest, candidate, paras, n + 1, mark, max)
            } else {
                if n == 0 {
                    assert(candidate == paras[0]);
                }
                n
            }
        }
    }
}

proof fn lemma_first_paragraph(parts: Seq<Seq<char>>, mark: Seq<char>, max: usize)
    requires
        filled(parts).len() > 0,
        !tokens::costs_at_most(filled(parts)[0] + mark, max),
    ensures
        taken(parts, seq![], mark, max) == prefix_within(filled(parts)[0], mark, max),
    decreases parts.len(),
{
    if parts.len() == 0 {
        reveal(Seq::filter);
        assert(filled(parts).len() == 0);
    } else {
        lemma_filled(parts);
        if text::trimmed_end(parts[0]).len() == 0 {
            lemma_first_paragraph(parts.drop_first(), mark, max);
        }
    }
}

/// The search ends at a start that fits, before one that does not.
proof fn lemma_longest(text: Seq<char>, mark: Seq<char>, max: usize, low: int, high: int)
    requires
        0 <= low <= high <= text.len(),
        tokens::costs_at_most(text::trimmed_end(text.take(low)) + mark, max),
        high < text.len() ==> !tokens::costs_at_most(
            text::trimmed_end(text.take(high + 1)) + mark,
            max,
        ),
        !tokens::costs_at_most(text::trimmed_end(text.take(text.len() as int)) + mark, max),
    ensures
        ({
            let n = longest_from(text, mark, max, low, high);
            &&& low <= n < text.len()
            &&& tokens::costs_at_most(text::trimmed_end(text.take(n)) + mark, max)
            &&& !tokens::costs_at_most(text::trimmed_end(text.take(n + 1)) + mark, max)
        }),
    decreases high - low,
{
    if low < high {
        let mid = (low + high + 1) / 2;
        if tokens::costs_at_most(text::trimmed_end(text.take(mid)) + mark, max) {
            lemma_longest(text, mark, max, mid, high);
        } else {
            lemma_longest(text, mark, max, low, mid - 1);
        }
    }
}

/// The marker says as much as the budget can pay for: the full sentence, and shorter ones only
/// where every longer one is too dear.
pub proof fn law_the_marker_says_what_the_budget_pays_for(max: usize)
    ensures
        tokens::costs_at_most("\n\n…(truncated to fit token budget)"@, max) ==> marker(max)
            == "\n\n…(truncated to fit token budget)"@,
        !tokens::costs_at_most("\n\n…(truncated to fit token budget)"@, max) ==> {
            &&& tokens::costs_at_most("\n\n…(truncated)"@, max) ==> marker(max)
                == "\n\n…(truncated)"@
            &&& !tokens::costs_at_most("\n\n…(truncated)"@, max) ==> {
                &&& tokens::costs_at_most("\n\n…"@, max) ==> marker(max) == "\n\n…"@
                &&& !tokens::costs_at_most("\n\n…"@, max) ==> {
                    &&& tokens::costs_at_most("…"@, max) ==> marker(max) == "…"@
                    &&& !tokens::costs_at_most("…"@, max) ==> marker(max).len() == 0
                }
            }
        },
{
    reveal_strlit("");
}

/// A text that costs no more than the budget is left alone, and so is every text where there is
/// no budget. Everything else is cut.
pub proof fn law_what_fits_is_left_alone(markdown: Seq<char>, max: usize)
    ensures
        max == 0 ==> fitted(markdown, max) == markdown && untouched(markdown, max),
        tokens::token_count(markdown) matches Some(n) && n <= max ==> fitted(markdown, max)
            == markdown && untouched(markdown, max),
        max > 0 && !(tokens::token_count(markdown) matches Some(n) && n <= max) ==> !untouched(
            markdown,
            max,
        ),
{
}

/// Where nothing of the first paragraph fits, the text as a whole is cut at the last character that
/// still fits, or nothing but the marker is left.
pub proof fn law_the_last_resort_is_the_start_of_the_text(markdown: Seq<char>, max: usize)
    requires
        !untouched(markdown, max),
        tokens::costs_at_most(marker(max), max),
        taken(text::parts(markdown, "\n\n"@), seq![], marker(max), max).len() == 0,
    ensures
        exists|n: int|
            #![trigger text::trimmed_end(markdown).take(n)]
            {
                let whole = text::trimmed_end(markdown);
                &&& 0 <= n <= whole.len()
                &&& fitted(markdown, max) == text::trimmed_end(whole.take(n)) + marker(max)
                &&& n < whole.len() ==> !tokens::costs_at_most(
                    text::trimmed_end(whole.take(n + 1)) + marker(max),
                    max,
                )
            },
{
    let mark = marker(max);
    let whole = text::trimmed_end(markdown);
    text::lemma_trimmed_end(markdown);
    assert(text::trimmed_end(whole) == whole);
    assert(whole.take(0) =~= seq![]);
    assert(text::trimmed_end(whole.take(0)) =~= seq![]);
    assert(seq![] + mark =~= mark);
    if whole.len() == 0 {
        assert(shortened(markdown, max) =~= seq![]);
        assert(whole.take(0) == Seq::<char>::empty());
    } else {
        lemma_longest_or_all(whole, mark, max, 0, whole.len() as int);
        let n = longest_from(whole, mark, max, 0, whole.len() as int);
        assert(shortened(markdown, max) == text::trimmed_end(whole.take(n)));
    }
}

proof fn lemma_longest_or_all(text: Seq<char>, mark: Seq<char>, max: usize, low: int, high: int)
    requires
        0 <= low <= high <= text.len(),
        tokens::costs_at_most(text::trimmed_end(text.take(low)) + mark, max),
        high < text.len() ==> !tokens::costs_at_most(
            text::trimmed_end(text.take(high + 1)) + mark,
            max,
        ),
    ensures
        ({
            let n = longest_from(text, mark, max, low, high);
            &&& low <= n <= text.len()
            &&& tokens::costs_at_most(text::trimmed_end(text.take(n)) + mark, max)
            &&& n < text.len() ==> !tokens::costs_at_most(
                text::trimmed_end(text.take(n + 1)) + mark,
                max,
            )
        }),
    decreases high - low,
{
    if low < high {
        let mid = (low + high + 1) / 2;
        if tokens::costs_at_most(text::trimmed_end(text.take(mid)) + mark, max) {
            lemma_longest_or_all(text, mark, max, mid, high);
        } else {
            lemma_longest_or_all(text, mark, max, low, mid - 1);
        }
    }
}

/// What fits a budget is handed back as it came and not marked as cut, and what does not fit is cut
/// and marked so.
pub proof fn law_the_flag_tells_whether_something_was_cut(
    markdown: &str,
    max: usize,
    r: (String, bool),
)
    requires
        call_ensures(fit, (markdown, max), r),
    ensures
        !r.1 ==> r.0@ == markdown@,
        r.1 <==> max > 0 && !(tokens::token_count(markdown@) matches Some(n) && n <= max),
        r.1 ==> text::ends(r.0@, marker(max)),
        max > 0 ==> (tokens::token_count(r.0@) matches Some(n) && n <= max),
{
    if r.1 {
        law_cut_output_ends_in_marker(markdown@, max);
    }
}

} // verus!
