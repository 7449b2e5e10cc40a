//! Elements of HTML documents as plain values.

use vstd::prelude::*;

use crate::error;
use crate::text;

verus! {

/// The depth above which all nodes of a document must stand if it is to be converted or searched
/// with a caller's selector. Both make one call within another for every level, and these calls
/// share one stack.
pub const MAX_NESTING: usize = 256;

/// The most steps of a selector. They are taken one call within another, too.
pub const MAX_SELECTOR_STEPS: usize = 512;

/// An element that a CSS selector found.
#[derive(Debug)]
pub struct Element {
    /// The tag name.
    pub name: String,
    /// The values of the attributes that were asked for, in that order.
    pub attrs: Vec<Option<String>>,
    /// The text inside the element.
    pub text: String,
}

/// An element with what it stands in.
#[derive(Debug)]
pub struct Placed {
    pub element: Element,
    /// The tag names of what the element stands in, from the inside out; nothing for the
    /// document itself.
    pub ancestors: Vec<Option<String>>,
}

/// An element with the elements that a second selector found in it.
#[derive(Debug)]
pub struct Branch {
    pub element: Element,
    pub inner: Vec<Element>,
}

/// An element with the elements found in it, and those found in them.
#[derive(Debug)]
pub struct Bush {
    pub element: Element,
    pub branches: Vec<Branch>,
}

/// An element, as a mathematical value.
#[verifier::ext_equal]
pub struct ElementModel {
    pub name: Seq<char>,
    pub attrs: Seq<Option<Seq<char>>>,
    pub text: Seq<char>,
}

/// An element with what it stands in, as a mathematical value.
#[verifier::ext_equal]
pub struct PlacedModel {
    pub element: ElementModel,
    pub ancestors: Seq<Option<Seq<char>>>,
}

/// An element with those in it, as a mathematical value.
#[verifier::ext_equal]
pub struct BranchModel {
    pub element: ElementModel,
    pub inner: Seq<ElementModel>,
}

/// An element with two levels of others in it, as a mathematical value.
#[verifier::ext_equal]
pub struct BushModel {
    pub element: ElementModel,
    pub branches: Seq<BranchModel>,
}

impl DeepView for Element {
    type V = ElementModel;

    open spec fn deep_view(&self) -> ElementModel {
        ElementModel { name: self.name@, attrs: self.attrs.deep_view(), text: self.text@ }
    }
}

impl DeepView for Placed {
    type V = PlacedModel;

    open spec fn deep_view(&self) -> PlacedModel {
        PlacedModel { element: self.element.deep_view(), ancestors: self.ancestors.deep_view() }
    }
}

impl DeepView for Branch {
    type V = BranchModel;

    open spec fn deep_view(&self) -> BranchModel {
        BranchModel { element: self.element.deep_view(), inner: self.inner.deep_view() }
    }
}

impl DeepView for Bush {
    type V = BushModel;

    open spec fn deep_view(&self) -> BushModel {
        BushModel { element: self.element.deep_view(), branches: self.branches.deep_view() }
    }
}

/// The value of the attribute with number `i`.
pub open spec fn attr(e: ElementModel, i: int) -> Option<Seq<char>> {
    if 0 <= i < e.attrs.len() {
        e.attrs[i]
    } else {
        None
    }
}

/// A copy of the value of the attribute with number `i`.
pub fn get_attr(e: &Element, i: usize) -> (r: Option<String>)
    ensures
        r.deep_view() == attr(e.deep_view(), i as int),
{
    if i < e.attrs.len() {
        text::copy_opt(&e.attrs[i])
    } else {
        None
    }
}

/// The numbers without the zeros at their end.
pub open spec fn settled(pending: Seq<usize>) -> Seq<usize>
    decreases pending.len(),
{
    if pending.len() > 0 && pending.last() == 0 {
        settled(pending.drop_last())
    } else {
        pending
    }
}

/// The numbers with the last one less by one.
pub open spec fn taken(pending: Seq<usize>) -> Seq<usize> {
    if pending.len() > 0 && pending.last() > 0 {
        pending.drop_last().push((pending.last() - 1) as usize)
    } else {
        pending
    }
}

/// How many children are still to come of each node that is not complete, from the outside in,
/// when the first `n` nodes of a tree have been seen. A node comes before its children, and
/// `counts` has for each node how many it has. First of all the root is to come.
pub open spec fn pending(counts: Seq<usize>, n: int) -> Seq<usize>
    decreases n,
{
    if n <= 0 {
        seq![1]
    } else {
        settled(taken(pending(counts, n - 1)).push(counts[n - 1]))
    }
}

/// The depth of the node with number `i`, where the root has depth 0.
pub open spec fn depth(counts: Seq<usize>, i: int) -> int {
    pending(counts, i).len() - 1
}

/// Every node of the tree stands above [`MAX_NESTING`].
pub open spec fn flat_tree(counts: Seq<usize>) -> bool {
    forall|i: int| 0 <= i < counts.len() ==> #[trigger] depth(counts, i) < MAX_NESTING
}

/// Whether every node of a tree stands above [`MAX_NESTING`]. `counts` has for each node how many
/// children it has, a node before its children.
pub fn is_flat_tree(counts: &Vec<usize>) -> (r: bool)
    ensures
        r == flat_tree(counts@),
{
    let mut open: Vec<usize> = Vec::new();
    open.push(1);
    assert(open@ =~= pending(counts@, 0));
    for i in 0..counts.len()
        invariant
            open@ == pending(counts@, i as int),
            forall|j: int| 0 <= j < i ==> #[trigger] depth(counts@, j) < MAX_NESTING,
    {
        if open.len() > MAX_NESTING {
            assert(depth(counts@, i as int) >= MAX_NESTING);
            return false;
        }
        assert(depth(counts@, i as int) < MAX_NESTING);
        let ghost before = open@;
        if open.len() > 0 {
            let last: usize = open[open.len() - 1];
            if last > 0 {
                open.set(open.len() - 1, last - 1);
            }
        }
        assert(open@ =~= taken(before));
        open.push(counts[i]);
        let ghost pushed = open@;
        while open.len() > 0 && open[open.len() - 1] == 0
            invariant
                settled(open@) == settled(pushed),
            decreases open@.len(),
        {
            let _ = open.pop();
        }
    }
    true
}

/// How many children each node of a document has, a node before its children.
pub uninterp spec fn child_counts(html: Seq<char>) -> Seq<usize>;

/// `scraper`'s `Html::parse_document`, and of its tree `NodeRef::descendants` from the root on,
/// which gives a node before its children: how many `NodeRef::children` each has. The result is a
/// function of the text.
#[verifier::external_body]
fn list_child_counts(html: &str) -> (r: Vec<usize>)
    requires
        error::parseable(html@),
    ensures
        r@ == child_counts(html@),
{
    let doc = scraper::Html::parse_document(html);
    doc.tree.root().descendants().map(|n| n.children().count()).collect()
}

/// Every node of the document stands above [`MAX_NESTING`].
pub open spec fn shallow(html: Seq<char>) -> bool {
    flat_tree(child_counts(html))
}

/// Whether every node of the document stands above [`MAX_NESTING`].
pub fn is_shallow(html: &str) -> (r: bool)
    requires
        error::parseable(html@),
    ensures
        r == shallow(html@),
{
    is_flat_tree(&list_child_counts(html))
}

/// The character may begin a step of a selector: it opens a bracket or leads to another element.
pub open spec fn begins_step(c: char) -> bool {
    text::is_ws(c) || c == '(' || c == '>' || c == '+' || c == '~'
}

/// The steps of a selector, or more.
pub open spec fn steps(selector: Seq<char>) -> nat
    decreases selector.len(),
{
    if selector.len() == 0 {
        0
    } else {
        steps(selector.drop_last()) + if begins_step(selector.last()) {
            1nat
        } else {
            0nat
        }
    }
}

/// The selector takes at most [`MAX_SELECTOR_STEPS`] steps.
pub open spec fn manageable(selector: Seq<char>) -> bool {
    steps(selector) <= MAX_SELECTOR_STEPS
}

/// The selector is short and opens no bracket, so that it asks for nothing within the elements
/// that it matches.
pub open spec fn flat(selector: Seq<char>) -> bool {
    &&& selector.len() <= MAX_SELECTOR_STEPS
    &&& forall|i: int| 0 <= i < selector.len() ==> selector[i] != '('
}

/// Whether the selector takes at most [`MAX_SELECTOR_STEPS`] steps.
pub fn is_manageable(selector: &str) -> (r: bool)
    ensures
        r == manageable(selector@),
{
    let chars = text::to_chars(selector);
    let mut n: usize = 0;
    assert(chars@.take(0) =~= seq![]);
    for i in 0..chars.len()
        invariant
            n <= i,
            n == steps(chars@.take(i as int)),
    {
        assert(chars@.take(i + 1).drop_last() =~= chars@.take(i as int));
        let c = chars[i];
        if text::whitespace(c) || c == '(' || c == '>' || c == '+' || c == '~' {
            n = n + 1;
        }
    }
    assert(chars@.take(chars@.len() as int) =~= chars@);
    n <= MAX_SELECTOR_STEPS
}

/// The elements of a document that a selector matches, in document order, with the attributes
/// that were asked for; none for what is no selector.
pub uninterp spec fn selected(
    html: Seq<char>,
    selector: Seq<char>,
    attrs: Seq<Seq<char>>,
) -> Seq<PlacedModel>;

/// The elements that `outer` matches in a document, in each of them those that `middle`
/// matches, and in each of these those that `inner` matches, all in document order.
pub uninterp spec fn selected_nested(
    html: Seq<char>,
    outer: Seq<char>,
    middle: Seq<char>,
    inner: Seq<char>,
    attrs: Seq<Seq<char>>,
) -> Seq<BushModel>;

/// The HTML of each element that a selector matches, its own tags with it; the words of the
/// error for what is no selector.
pub uninterp spec fn outer_html(
    html: Seq<char>,
    selector: Seq<char>,
) -> Result<Seq<Seq<char>>, Seq<char>>;

/// The HTML inside the first element that a selector matches.
pub uninterp spec fn inner_html(html: Seq<char>, selector: Seq<char>) -> Option<Seq<char>>;

/// `scraper`'s `Html::parse_document`, `Selector::parse` and `Html::select`, with the elements
/// as plain values: `name`, `attr`, `text` and `ancestors` of each. The result is a function of
/// the arguments.
#[verifier::external_body]
pub(crate) fn select(html: &str, selector: &str, attrs: &Vec<&'static str>) -> (r: Vec<Placed>)
    requires
        error::parseable(html@),
        flat(selector@),
    ensures
        r.deep_view() == selected(html@, selector@, attrs.deep_view()),
{
    let doc = scraper::Html::parse_document(html);
    let plain = |e: scraper::ElementRef| Placed {
        element: Element {
            name: e.value().name().to_string(),
            attrs: attrs.iter().map(|a| e.attr(a).map(str::to_string)).collect(),
            text: e.text().collect(),
        },
        ancestors: e.ancestors().map(|n| n.value().as_element().map(|v| v.name().to_string())).collect(),
    };
    match scraper::Selector::parse(selector) {
        Ok(sel) => doc.select(&sel).map(plain).collect(),
        Err(_) => Vec::new(),
    }
}

/// `scraper`'s `Html::parse_document`, `Selector::parse`, `Html::select`, and in each element
/// found `ElementRef::select`, twice over, with the elements as plain values. The result is a
/// function of the arguments.
#[verifier::external_body]
pub(crate) fn select_nested(
    html: &str,
    outer: &str,
    middle: &str,
    inner: &str,
    attrs: &Vec<&'static str>,
) -> (r: Vec<Bush>)
    requires
        error::parseable(html@),
        flat(outer@),
        flat(middle@),
        flat(inner@),
    ensures
        r.deep_view() == selected_nested(html@, outer@, middle@, inner@, attrs.deep_view()),
{
    let plain = |e: scraper::ElementRef| Element {
        name: e.value().name().to_string(),
        attrs: attrs.iter().map(|a| e.attr(a).map(str::to_string)).collect(),
        text: e.text().collect(),
    };
    match [outer, middle, inner].map(scraper::Selector::parse) {
        [Ok(o), Ok(m), Ok(i)] => scraper::Html::parse_document(html).select(&o).map(|b| Bush {
            element: plain(b),
            branches: b.select(&m).map(|e| Branch { element: plain(e), inner: e.select(&i).map(plain).collect() }).collect()
        }).collect(),
        _ => vec![]
    }
}

/// `scraper`'s `Html::parse_document`, `Selector::parse`, `Html::select`, and `ElementRef::html`
/// of each element; the error of `Selector::parse` in its debug form. The result is a function
/// of the arguments. A match takes one call within another for every step from element to element
/// and, where a selector looks into an element, for every level below it.
#[verifier::external_body]
pub(crate) fn select_outer(html: &str, selector: &str) -> (r: Result<Vec<String>, String>)
    requires
        error::parseable(html@),
        manageable(selector@),
        shallow(html@),
    ensures
        match r {
            Ok(v) => outer_html(html@, selector@) == Ok::<Seq<Seq<char>>, Seq<char>>(v.deep_view()),
            Err(e) => outer_html(html@, selector@) == Err::<Seq<Seq<char>>, Seq<char>>(e@),
        },
{
    let doc = scraper::Html::parse_document(html);
    match scraper::Selector::parse(selector) {
        Ok(sel) => Ok(doc.select(&sel).map(|e| e.html()).collect()),
        Err(e) => Err(format!("{e:?}")),
    }
}

/// `scraper`'s `Html::parse_document`, `Selector::parse`, `Html::select`, and
/// `ElementRef::inner_html` of the first element; nothing where there is none. The result is a
/// function of the arguments.
#[verifier::external_body]
pub(crate) fn select_inner(html: &str, selector: &str) -> (r: Option<String>)
    requires
        error::parseable(html@),
        flat(selector@),
    ensures
        r.deep_view() == inner_html(html@, selector@),
{
    let doc = scraper::Html::parse_document(html);
    let sel = scraper::Selector::parse(selector).ok()?;
    let first = doc.select(&sel).next();
    first.map(|e| e.inner_html())
}

/// The value of an attribute is found under its number.
pub proof fn law_attributes_go_by_their_number(e: ElementModel, i: int)
    ensures
        0 <= i < e.attrs.len() ==> attr(e, i) == e.attrs[i],
        i >= e.attrs.len() ==> attr(e, i) is None,
{
}

/// The root has depth 0, the first child of a node stands one level below it, and what follows a
/// node without children stands no deeper than that node: beside it, where its parent has more
/// children to come.
pub proof fn law_children_stand_one_level_deeper(counts: Seq<usize>, i: int)
    requires
        0 <= i < counts.len(),
    ensures
        depth(counts, 0) == 0,
        counts[i] > 0 ==> depth(counts, i + 1) == depth(counts, i) + 1,
        counts[i] == 0 ==> depth(counts, i + 1) <= depth(counts, i),
        counts[i] == 0 && pending(counts, i).len() > 0 && pending(counts, i).last() > 1 ==> depth(
            counts,
            i + 1,
        ) == depth(counts, i),
        flat_tree(counts) ==> depth(counts, i) < 256,
{
    let open = pending(counts, i);
    let next = taken(open).push(counts[i]);
    assert(taken(open).len() == open.len());
    if counts[i] == 0 {
        assert(next.drop_last() =~= taken(open));
        lemma_settled(taken(open));
        assert(settled(next) == settled(taken(open)));
        if open.len() > 0 && open.last() > 1 {
            assert(taken(open).last() > 0);
        }
    } else {
        assert(settled(next) == next);
    }
}

proof fn lemma_settled(open: Seq<usize>)
    ensures
        settled(open).len() <= open.len(),
    decreases open.len(),
{
    if open.len() > 0 && open.last() == 0 {
        lemma_settled(open.drop_last());
    }
}

/// A chain of nodes, each the only child of the one before, is as deep as it is long, and is flat
/// where it has at most 256 nodes.
pub proof fn law_a_chain_is_as_deep_as_it_is_long(counts: Seq<usize>, i: int)
    requires
        0 <= i < counts.len(),
        forall|k: int| 0 <= k < counts.len() - 1 ==> #[trigger] counts[k] > 0,
    ensures
        depth(counts, i) == i,
        flat_tree(counts) <==> counts.len() <= 256,
{
    assert forall|k: int| 0 <= k < counts.len() implies #[trigger] depth(counts, k) == k by {
        lemma_chain(counts, k);
    }
    if counts.len() > 256 {
        assert(depth(counts, 256) == 256);
    }
}

proof fn lemma_chain(counts: Seq<usize>, i: int)
    requires
        0 <= i < counts.len(),
        forall|k: int| 0 <= k < counts.len() - 1 ==> #[trigger] counts[k] > 0,
    ensures
        depth(counts, i) == i,
    decreases i,
{
    if i > 0 {
        lemma_chain(counts, i - 1);
        assert(counts[i - 1] > 0);
        law_children_stand_one_level_deeper(counts, i - 1);
    }
}

/// A selector takes a step for each of its characters that is white space, opens a round bracket or
/// leads to another element.
pub proof fn law_steps_are_counted(selector: Seq<char>)
    ensures
        steps(selector) == selector.filter(
            |c: char| text::is_ws(c) || c == '(' || c == '>' || c == '+' || c == '~',
        ).len(),
        manageable(selector) <==> steps(selector) <= 512,
    decreases selector.len(),
{
    reveal(Seq::filter);
    if selector.len() > 0 {
        law_steps_are_counted(selector.drop_last());
    }
}

/// How many nodes are still to come of the tree below node `i`, itself among them, when the nodes
/// before `m` have been seen.
pub open spec fn still_to_come(counts: Seq<usize>, i: int, m: int) -> int
    decreases m - i,
{
    if m <= i {
        1
    } else {
        still_to_come(counts, i, m - 1) + counts[m - 1] - 1
    }
}

/// Everything below a node stands deeper than the node. The first node behind all that stands beside
/// it, where its parent has more children to come.
pub proof fn law_what_follows_a_tree_stands_beside_it(counts: Seq<usize>, i: int, j: int)
    requires
        0 <= i < j <= counts.len(),
        still_to_come(counts, i, j) == 0,
        forall|m: int| i <= m < j ==> #[trigger] still_to_come(counts, i, m) > 0,
        pending(counts, i).len() > 0,
        pending(counts, i).last() > 0,
    ensures
        forall|m: int| i < m < j ==> #[trigger] depth(counts, m) > depth(counts, i),
        pending(counts, i).last() > 1 ==> depth(counts, j) == depth(counts, i) && pending(
            counts,
            j,
        ).last() == pending(counts, i).last() - 1,
        pending(counts, i).last() == 1 ==> depth(counts, j) < depth(counts, i),
{
    let before = taken(pending(counts, i));
    assert(before.len() == pending(counts, i).len());
    assert forall|m: int| i < m < j implies #[trigger] depth(counts, m) > depth(counts, i) by {
        assert(still_to_come(counts, i, m) > 0);
        let below = lemma_below(counts, i, m);
    }
    let below = lemma_below(counts, i, j);
    assert(pending(counts, j) == settled(before));
    if pending(counts, i).last() > 1 {
        assert(settled(before) == before);
    } else {
        lemma_settled(before.drop_last());
    }
}

/// The numbers together.
spec fn total(s: Seq<usize>) -> nat
    decreases s.len(),
{
    if s.len() == 0 {
        0
    } else {
        total(s.drop_last()) + s.last() as nat
    }
}

/// Where the walk stands within the tree below node `i`.
proof fn lemma_below(counts: Seq<usize>, i: int, m: int) -> (below: Seq<usize>)
    requires
        0 <= i < m <= counts.len(),
        forall|k: int| i <= k < m ==> #[trigger] still_to_come(counts, i, k) > 0,
        pending(counts, i).len() > 0,
        pending(counts, i).last() > 0,
    ensures
        still_to_come(counts, i, m) == total(below),
        total(below) > 0 ==> pending(counts, m) == taken(pending(counts, i)) + below && below.len()
            > 0 && below.last() > 0,
        total(below) == 0 ==> pending(counts, m) == settled(taken(pending(counts, i))),
    decreases m - i,
{
    let before = taken(pending(counts, i));
    let c = counts[m - 1];
    if m == i + 1 {
        let all = seq![c];
        assert(all.drop_last() =~= seq![]);
        assert(total(seq![]) == 0);
        assert(total(all) == c);
        assert(still_to_come(counts, i, i) == 1);
        assert(before.push(c) =~= before + all);
        lemma_settled_parts(before, all);
        settled(all)
    } else {
        assert(still_to_come(counts, i, m - 1) > 0);
        let open = lemma_below(counts, i, m - 1);
        let all = taken(open).push(c);
        assert(pending(counts, m - 1) == before + open);
        assert((before + open).last() == open.last());
        assert((before + open).drop_last() =~= before + open.drop_last());
        assert(taken(before + open).push(c) =~= before + all);
        assert(all.drop_last() =~= taken(open));
        assert(taken(open).drop_last() =~= open.drop_last());
        assert(total(taken(open)) == total(open) - 1);
        lemma_settled_parts(before, all);
        settled(all)
    }
}

proof fn lemma_settled_parts(front: Seq<usize>, back: Seq<usize>)
    ensures
        total(settled(back)) == total(back),
        total(back) > 0 ==> settled(front + back) == front + settled(back) && settled(back).len() > 0
            && settled(back).last() > 0,
        total(back) == 0 ==> settled(front + back) == settled(front),
    decreases back.len(),
{
    if back.len() == 0 {
        assert(front + back =~= front);
    } else {
        let all = front + back;
        assert(all.last() == back.last());
        assert(all.drop_last() =~= front + back.drop_last());
        if back.last() == 0 {
            lemma_settled_parts(front, back.drop_last());
        }
    }
}

} // verus!
