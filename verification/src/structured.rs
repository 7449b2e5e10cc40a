//! Structured extraction: links and tables as data rather than prose.

use vstd::prelude::*;

use crate::dom;
use crate::dom::{Branch, BranchModel, Bush, BushModel, Element, ElementModel, PlacedModel};
use crate::error;
use crate::text;
use crate::weburl;

verus! {

/// A hyperlink with its visible text and its absolute URL.
#[derive(Debug, Clone)]
pub struct Link {
    pub text: String,
    pub href: String,
}

/// A table: an optional header row and body rows.
#[derive(Debug, Clone)]
pub struct Table {
    pub headers: Vec<String>,
    pub rows: Vec<Vec<String>>,
}

/// A link, as a mathematical value.
#[verifier::ext_equal]
pub struct LinkModel {
    pub text: Seq<char>,
    pub href: Seq<char>,
}

/// A table, as a mathematical value.
#[verifier::ext_equal]
pub struct TableModel {
    pub headers: Seq<Seq<char>>,
    pub rows: Seq<Seq<Seq<char>>>,
}

impl DeepView for Link {
    type V = LinkModel;

    open spec fn deep_view(&self) -> LinkModel {
        LinkModel { text: self.text@, href: self.href@ }
    }
}

impl DeepView for Table {
    type V = TableModel;

    open spec fn deep_view(&self) -> TableModel {
        TableModel { headers: self.headers.deep_view(), rows: self.rows.deep_view() }
    }
}

/// An anchor as it stands in the page, with what its reference means there.
#[derive(Debug)]
pub struct RawLink {
    /// The reference as written.
    pub raw: String,
    /// The text inside the anchor.
    pub text: String,
    /// The URL that the reference resolves to, where it does.
    pub resolved: Option<String>,
}

/// An anchor, as a mathematical value.
#[verifier::ext_equal]
pub struct RawLinkModel {
    pub raw: Seq<char>,
    pub text: Seq<char>,
    pub resolved: Option<Seq<char>>,
}

impl DeepView for RawLink {
    type V = RawLinkModel;

    open spec fn deep_view(&self) -> RawLinkModel {
        RawLinkModel { raw: self.raw@, text: self.text@, resolved: self.resolved.deep_view() }
    }
}

// ---------------------------------------------------------------------------------------------
// Links
// ---------------------------------------------------------------------------------------------

/// The reference leads out of the page it stands in: it is not empty, no anchor within the page
/// and no script.
pub open spec fn leads_on(raw: Seq<char>) -> bool {
    let r = text::trimmed(raw);
    r.len() > 0 && r[0] != '#' && !text::begins(r, "javascript:"@)
}

/// The links for a list of anchors: those that lead on, each with its resolved URL, or with the
/// reference itself where that could not be resolved.
pub open spec fn links_of(anchors: Seq<RawLinkModel>) -> Seq<LinkModel>
    decreases anchors.len(),
{
    if anchors.len() == 0 {
        seq![]
    } else {
        let before = links_of(anchors.drop_last());
        let a = anchors.last();
        if leads_on(a.raw) {
            before.push(
                LinkModel {
                    text: text::collapsed(a.text),
                    href: match a.resolved {
                        Some(href) => href,
                        None => text::trimmed(a.raw),
                    },
                },
            )
        } else {
            before
        }
    }
}

/// Picks the links out of a list of anchors.
pub fn collect_links(anchors: &Vec<RawLink>) -> (r: Vec<Link>)
    ensures
        r.deep_view() == links_of(anchors.deep_view()),
{
    let mut out: Vec<Link> = Vec::new();
    let ghost all = anchors.deep_view();
    assert(out.deep_view() =~= links_of(all.take(0)));
    for i in 0..anchors.len()
        invariant
            all == anchors.deep_view(),
            out.deep_view() == links_of(all.take(i as int)),
    {
        let a = &anchors[i];
        proof {
            assert(all.take(i + 1).drop_last() =~= all.take(i as int));
            assert(all.take(i + 1).last() == a.deep_view());
        }
        let chars = text::to_chars(a.raw.as_str());
        let raw = text::trim(chars.as_slice());
        if raw.len() > 0 && raw[0] != '#' && !text::starts_with(raw, "javascript:") {
            let href = match &a.resolved {
                Some(href) => href.clone(),
                None => text::from_chars(raw),
            };
            let ghost before = out.deep_view();
            let link = Link { text: text::collapse_str(a.text.as_str()), href };
            out.push(link);
            assert(out.deep_view() =~= before.push(link.deep_view()));
        }
    }
    assert(all.take(all.len() as int) =~= all);
    out
}

/// What a reference resolves to against a page at `base_url`, where that is a URL.
pub open spec fn resolved_in(base_url: Seq<char>, raw: Seq<char>) -> Option<Seq<char>> {
    match weburl::parsed(base_url) {
        Ok(base) => match weburl::joined(base.href, text::trimmed(raw)) {
            Ok(href) => Some(href),
            Err(_) => None,
        },
        Err(_) => None,
    }
}

/// The anchor for an element with the attribute `href`.
pub open spec fn raw_link(e: ElementModel, base_url: Seq<char>) -> RawLinkModel {
    let raw = match dom::attr(e, 0) {
        Some(href) => href,
        None => seq![],
    };
    RawLinkModel { raw, text: e.text, resolved: resolved_in(base_url, raw) }
}

/// The anchors for a list of elements with the attribute `href`.
pub open spec fn raw_links(elements: Seq<PlacedModel>, base_url: Seq<char>) -> Seq<RawLinkModel> {
    Seq::new(elements.len(), |i: int| raw_link(elements[i].element, base_url))
}

/// The links of a page.
pub open spec fn page_links(html: Seq<char>, base_url: Seq<char>) -> Seq<LinkModel> {
    links_of(raw_links(dom::selected(html, "a[href]"@, seq!["href"@]), base_url))
}

/// Extracts all links, resolving references against `base_url` and leaving out empty ones,
/// anchors within the page and scripts.
pub fn extract_links(html: &str, base_url: &str) -> (r: Vec<Link>)
    requires
        error::parseable(html@),
    ensures
        r.deep_view() == page_links(html@, base_url@),
{
    let attrs: Vec<&'static str> = vec!["href"];
    assert(attrs.deep_view() =~= seq!["href"@]);
    proof {
        reveal_strlit("a[href]");
    }
    let elements = dom::select(html, "a[href]", &attrs);
    let base: Option<String> = match weburl::parse_url(base_url) {
        Ok(u) => Some(u.href),
        Err(_) => None,
    };
    let ghost all = elements.deep_view();
    let mut anchors: Vec<RawLink> = Vec::new();
    for i in 0..elements.len()
        invariant
            all == elements.deep_view(),
            base.deep_view() == (match weburl::parsed(base_url@) {
                Ok(u) => Some(u.href),
                Err(_) => None,
            }),
            anchors@.len() == i,
            forall|j: int| 0 <= j < i ==> anchors.deep_view()[j] == raw_link(
                all[j].element,
                base_url@,
            ),
    {
        let e = &elements[i].element;
        assert(all[i as int].element == e.deep_view());
        let raw = match dom::get_attr(e, 0) {
            Some(href) => href,
            None => String::new(),
        };
        let resolved = match &base {
            Some(b) => match weburl::join_url(b.as_str(), text::trim_str(raw.as_str()).as_str()) {
                Ok(href) => Some(href),
                Err(_) => None,
            },
            None => None,
        };
        let ghost before = anchors.deep_view();
        let anchor = RawLink { raw, text: e.text.clone(), resolved };
        assert(anchor.deep_view() =~= raw_link(all[i as int].element, base_url@));
        anchors.push(anchor);
        assert(anchors.deep_view() =~= before.push(anchor.deep_view()));
    }
    assert(anchors.deep_view() =~= raw_links(all, base_url@));
    collect_links(&anchors)
}

// ---------------------------------------------------------------------------------------------
// Tables
// ---------------------------------------------------------------------------------------------

/// The texts of the cells, in document order.
pub open spec fn cell_texts(cells: Seq<ElementModel>) -> Seq<Seq<char>> {
    Seq::new(cells.len(), |i: int| text::collapsed(cells[i].text))
}

/// There are cells, and all of them are header cells.
pub open spec fn only_headers(cells: Seq<ElementModel>) -> bool {
    cells.len() > 0 && forall|i: int| 0 <= i < cells.len() ==> (#[trigger] cells[i]).name == "th"@
}

/// The table that the rows make: the first row with header cells alone is the header, every
/// other row with a cell is a body row. A row keeps its cells in document order.
pub open spec fn table_of(rows: Seq<BranchModel>) -> TableModel
    decreases rows.len(),
{
    if rows.len() == 0 {
        TableModel { headers: seq![], rows: seq![] }
    } else {
        let before = table_of(rows.drop_last());
        let cells = rows.last().inner;
        if before.headers.len() == 0 && only_headers(cells) {
            TableModel { headers: cell_texts(cells), ..before }
        } else if cells.len() > 0 {
            TableModel { rows: before.rows.push(cell_texts(cells)), ..before }
        } else {
            before
        }
    }
}

/// The table holds something.
pub open spec fn has_rows(t: TableModel) -> bool {
    t.headers.len() > 0 || t.rows.len() > 0
}

/// The tables that hold something.
pub open spec fn tables_of(tables: Seq<BushModel>) -> Seq<TableModel>
    decreases tables.len(),
{
    if tables.len() == 0 {
        seq![]
    } else {
        let before = tables_of(tables.drop_last());
        let t = table_of(tables.last().branches);
        if has_rows(t) {
            before.push(t)
        } else {
            before
        }
    }
}

fn collect_cells(cells: &Vec<Element>) -> (r: Vec<String>)
    ensures
        r.deep_view() == cell_texts(cells.deep_view()),
{
    let mut out: Vec<String> = Vec::new();
    let ghost all = cells.deep_view();
    for i in 0..cells.len()
        invariant
            all == cells.deep_view(),
            out@.len() == i,
            forall|j: int| 0 <= j < i ==> out.deep_view()[j] == text::collapsed(all[j].text),
    {
        assert(all[i as int] == cells@[i as int].deep_view());
        let ghost before = out.deep_view();
        let cell = text::collapse_str(cells[i].text.as_str());
        out.push(cell);
        assert(out.deep_view() =~= before.push(cell@));
    }
    assert(out.deep_view() =~= cell_texts(all));
    out
}

fn are_headers(cells: &Vec<Element>) -> (r: bool)
    ensures
        r == only_headers(cells.deep_view()),
{
    let ghost all = cells.deep_view();
    for i in 0..cells.len()
        invariant
            all == cells.deep_view(),
            forall|j: int| 0 <= j < i ==> (#[trigger] all[j]).name == "th"@,
    {
        assert(all[i as int] == cells@[i as int].deep_view());
        if !text::same(cells[i].name.as_str(), "th") {
            return false;
        }
    }
    cells.len() > 0
}

fn collect_table(rows: &Vec<Branch>) -> (r: Table)
    ensures
        r.deep_view() == table_of(rows.deep_view()),
{
    let mut out = Table { headers: Vec::new(), rows: Vec::new() };
    let ghost all = rows.deep_view();
    assert(out.deep_view() =~= table_of(all.take(0)));
    for i in 0..rows.len()
        invariant
            all == rows.deep_view(),
            out.deep_view() == table_of(all.take(i as int)),
    {
        let row = &rows[i];
        proof {
            assert(all.take(i + 1).drop_last() =~= all.take(i as int));
            assert(all.take(i + 1).last() == row.deep_view());
        }
        let ghost before = out.deep_view();
        let ghost cells = row.inner.deep_view();
        if out.headers.len() == 0 && are_headers(&row.inner) {
            out.headers = collect_cells(&row.inner);
            assert(out.deep_view() =~= TableModel { headers: cell_texts(cells), ..before });
        } else if row.inner.len() > 0 {
            out.rows.push(collect_cells(&row.inner));
            assert(out.rows.deep_view() =~= before.rows.push(cell_texts(cells)));
            assert(out.deep_view() =~= TableModel {
                rows: before.rows.push(cell_texts(cells)),
                ..before
            });
        }
    }
    assert(all.take(all.len() as int) =~= all);
    out
}

/// Builds the tables from `table` elements, the `tr` elements in them and the cells in those.
pub fn collect_tables(tables: &Vec<Bush>) -> (r: Vec<Table>)
    ensures
        r.deep_view() == tables_of(tables.deep_view()),
{
    let mut out: Vec<Table> = Vec::new();
    let ghost all = tables.deep_view();
    assert(out.deep_view() =~= tables_of(all.take(0)));
    for i in 0..tables.len()
        invariant
            all == tables.deep_view(),
            out.deep_view() == tables_of(all.take(i as int)),
    {
        let t = &tables[i];
        proof {
            assert(all.take(i + 1).drop_last() =~= all.take(i as int));
            assert(all.take(i + 1).last() == t.deep_view());
        }
        let table = collect_table(&t.branches);
        if table.headers.len() > 0 || table.rows.len() > 0 {
            let ghost before = out.deep_view();
            out.push(table);
            assert(out.deep_view() =~= before.push(table.deep_view()));
        }
    }
    assert(all.take(all.len() as int) =~= all);
    out
}

/// The tables of a page.
pub open spec fn page_tables(html: Seq<char>) -> Seq<TableModel> {
    tables_of(dom::selected_nested(html, "table"@, "tr"@, "th, td"@, seq![]))
}

/// Extracts all tables. The first row made entirely of `<th>` is the header; everything else
/// becomes body rows.
pub fn extract_tables(html: &str) -> (r: Vec<Table>)
    requires
        error::parseable(html@),
    ensures
        r.deep_view() == page_tables(html@),
{
    let attrs: Vec<&'static str> = Vec::new();
    assert(attrs.deep_view() =~= seq![]);
    proof {
        reveal_strlit("table");
        reveal_strlit("tr");
        reveal_strlit("th, td");
    }
    let tables = dom::select_nested(html, "table", "tr", "th, td", &attrs);
    collect_tables(&tables)
}

// ---------------------------------------------------------------------------------------------
// Laws
// ---------------------------------------------------------------------------------------------

/// The row holds a cell.
pub open spec fn has_cells(row: BranchModel) -> bool {
    row.inner.len() > 0
}

/// How many of the rows hold a cell.
pub open spec fn filled_rows(rows: Seq<BranchModel>) -> nat
    decreases rows.len(),
{
    if rows.len() == 0 {
        0
    } else {
        filled_rows(rows.drop_last()) + if has_cells(rows.last()) {
            1nat
        } else {
            0nat
        }
    }
}

/// No row with a cell is lost: each is the header or one of the body rows, and no body row is
/// empty.
pub proof fn law_every_row_is_kept(rows: Seq<BranchModel>)
    ensures
        table_of(rows).rows.len() + (if table_of(rows).headers.len() > 0 {
            1nat
        } else {
            0nat
        }) == filled_rows(rows),
        forall|i: int|
            0 <= i < table_of(rows).rows.len() ==> (#[trigger] table_of(rows).rows[i]).len() > 0,
    decreases rows.len(),
{
    if rows.len() > 0 {
        law_every_row_is_kept(rows.drop_last());
    }
}

/// Every link comes from an anchor whose reference leads on, and shows that anchor's text.
pub proof fn law_links_lead_on(anchors: Seq<RawLinkModel>, i: int)
    requires
        0 <= i < links_of(anchors).len(),
    ensures
        exists|k: int|
            #![trigger anchors[k]]
            0 <= k < anchors.len() && leads_on(anchors[k].raw) && links_of(anchors)[i].text
                == text::collapsed(anchors[k].text),
    decreases anchors.len(),
{
    let before = links_of(anchors.drop_last());
    if i < before.len() {
        law_links_lead_on(anchors.drop_last(), i);
        let k = choose|k: int|
            #![trigger anchors.drop_last()[k]]
            0 <= k < anchors.drop_last().len() && leads_on(anchors.drop_last()[k].raw)
                && before[i].text == text::collapsed(anchors.drop_last()[k].text);
        assert(anchors[k] == anchors.drop_last()[k]);
    } else {
        assert(anchors[anchors.len() - 1] == anchors.last());
    }
}

/// The links of a page are its anchors that lead out of it, all of them and in document order: the
/// reference is neither empty nor a place within the page nor a script. Each shows the text of its
/// anchor with single spaces and leads to the URL that the reference is resolved to, or to the
/// reference itself where it cannot be resolved.
pub proof fn law_links_are_all_anchors_that_lead_on(html: Seq<char>, base_url: Seq<char>)
    ensures
        ({
            let kept = dom::selected(html, "a[href]"@, seq!["href"@]).filter(
                |p: PlacedModel|
                    dom::attr(p.element, 0) matches Some(raw) && {
                        let r = text::trimmed(raw);
                        r.len() > 0 && r[0] != '#' && !(r.len() >= 11 && r.take(11)
                            == "javascript:"@)
                    },
            );
            let links = page_links(html, base_url);
            &&& links.len() == kept.len()
            &&& forall|i: int|
                #![trigger links[i]]
                0 <= i < links.len() ==> {
                    let r = text::trimmed(dom::attr(kept[i].element, 0)->0);
                    &&& links[i].text == text::collapsed(kept[i].element.text)
                    &&& weburl::parsed(base_url) is Err ==> links[i].href == r
                    &&& weburl::parsed(base_url) matches Ok(base) ==> match weburl::joined(
                        base.href,
                        r,
                    ) {
                        Ok(href) => links[i].href == href,
                        Err(_) => links[i].href == r,
                    }
                }
        }),
{
    lemma_links_filter(dom::selected(html, "a[href]"@, seq!["href"@]), base_url);
}

proof fn lemma_links_filter(found: Seq<PlacedModel>, base_url: Seq<char>)
    ensures
        ({
            let kept = found.filter(
                |p: PlacedModel|
                    dom::attr(p.element, 0) matches Some(raw) && {
                        let r = text::trimmed(raw);
                        r.len() > 0 && r[0] != '#' && !(r.len() >= 11 && r.take(11)
                            == "javascript:"@)
                    },
            );
            let links = links_of(raw_links(found, base_url));
            &&& links.len() == kept.len()
            &&& forall|i: int|
                #![trigger links[i]]
                0 <= i < links.len() ==> {
                    let r = text::trimmed(dom::attr(kept[i].element, 0)->0);
                    &&& links[i].text == text::collapsed(kept[i].element.text)
                    &&& weburl::parsed(base_url) is Err ==> links[i].href == r
                    &&& weburl::parsed(base_url) matches Ok(base) ==> match weburl::joined(
                        base.href,
                        r,
                    ) {
                        Ok(href) => links[i].href == href,
                        Err(_) => links[i].href == r,
                    }
                }
        }),
    decreases found.len(),
{
    reveal(Seq::filter);
    reveal_strlit("javascript:");
    let raw = raw_links(found, base_url);
    if found.len() > 0 {
        let prior = found.drop_last();
        lemma_links_filter(prior, base_url);
        assert(raw.drop_last() =~= raw_links(prior, base_url));
        let e = found.last().element;
        assert(raw.last() == raw_link(e, base_url));
        let r = text::trimmed(raw.last().raw);
        if r.len() >= 11 {
            assert(r.subrange(0, 11) =~= r.take(11));
        }
        assert(text::trimmed(Seq::<char>::empty()).len() == 0);
    }
}

/// A table keeps the rows that have cells, in document order and cell by cell, with single spaces.
/// Where none of them has header cells alone, all are rows of the body.
pub proof fn law_a_table_without_header_row_is_all_body(rows: Seq<BranchModel>)
    requires
        forall|k: int|
            0 <= k < rows.len() ==> (#[trigger] rows[k]).inner.len() == 0 || exists|j: int|
                0 <= j < rows[k].inner.len() && (#[trigger] rows[k].inner[j]).name != "th"@,
    ensures
        ({
            let kept = rows.filter(|r: BranchModel| r.inner.len() > 0);
            let t = table_of(rows);
            &&& t.headers.len() == 0
            &&& t.rows.len() == kept.len()
            &&& forall|i: int|
                #![trigger t.rows[i]]
                0 <= i < t.rows.len() ==> {
                    &&& t.rows[i].len() == kept[i].inner.len()
                    &&& forall|j: int|
                        0 <= j < kept[i].inner.len() ==> #[trigger] t.rows[i][j] == text::collapsed(
                            kept[i].inner[j].text,
                        )
                }
        }),
    decreases rows.len(),
{
    reveal(Seq::filter);
    if rows.len() > 0 {
        let prior = rows.drop_last();
        assert forall|k: int| 0 <= k < prior.len() implies (#[trigger] prior[k]).inner.len() == 0
            || exists|j: int|
            0 <= j < prior[k].inner.len() && (#[trigger] prior[k].inner[j]).name != "th"@ by {
            assert(prior[k] == rows[k]);
            assert(rows[k].inner.len() == 0 || exists|j: int|
                0 <= j < rows[k].inner.len() && (#[trigger] rows[k].inner[j]).name != "th"@);
        }
        law_a_table_without_header_row_is_all_body(prior);
        let k = rows.len() - 1;
        assert(rows[k].inner.len() == 0 || exists|j: int|
            0 <= j < rows[k].inner.len() && (#[trigger] rows[k].inner[j]).name != "th"@);
        assert(!only_headers(rows.last().inner));
    }
}

/// The first row with header cells alone is the header of its table, and every other row that has
/// cells is a row of the body, in document order.
pub proof fn law_the_first_header_row_is_the_header(
    front: Seq<BranchModel>,
    row: BranchModel,
    back: Seq<BranchModel>,
)
    requires
        forall|k: int|
            0 <= k < front.len() ==> (#[trigger] front[k]).inner.len() == 0 || exists|j: int|
                0 <= j < front[k].inner.len() && (#[trigger] front[k].inner[j]).name != "th"@,
        row.inner.len() > 0,
        forall|j: int| 0 <= j < row.inner.len() ==> (#[trigger] row.inner[j]).name == "th"@,
    ensures
        ({
            let kept = (front + back).filter(|r: BranchModel| r.inner.len() > 0);
            let t = table_of(front.push(row) + back);
            &&& t.headers.len() == row.inner.len()
            &&& forall|j: int|
                0 <= j < row.inner.len() ==> #[trigger] t.headers[j] == text::collapsed(
                    row.inner[j].text,
                )
            &&& t.rows.len() == kept.len()
            &&& forall|i: int|
                #![trigger t.rows[i]]
                0 <= i < t.rows.len() ==> {
                    &&& t.rows[i].len() == kept[i].inner.len()
                    &&& forall|j: int|
                        0 <= j < kept[i].inner.len() ==> #[trigger] t.rows[i][j] == text::collapsed(
                            kept[i].inner[j].text,
                        )
                }
        }),
    decreases back.len(),
{
    reveal(Seq::filter);
    let all = front.push(row) + back;
    if back.len() == 0 {
        law_a_table_without_header_row_is_all_body(front);
        assert(all =~= front.push(row));
        assert(all.drop_last() =~= front);
        assert(front + back =~= front);
        assert(only_headers(row.inner));
    } else {
        law_the_first_header_row_is_the_header(front, row, back.drop_last());
        assert(all.drop_last() =~= front.push(row) + back.drop_last());
        assert(all.last() == back.last());
        assert((front + back).drop_last() =~= front + back.drop_last());
        assert((front + back).last() == back.last());
    }
}

/// The tables of a page are those that hold a row with a cell, in document order.
pub proof fn law_tables_are_those_with_rows(html: Seq<char>)
    ensures
        ({
            let kept = dom::selected_nested(html, "table"@, "tr"@, "th, td"@, seq![]).filter(
                |b: BushModel|
                    exists|k: int|
                        0 <= k < b.branches.len() && (#[trigger] b.branches[k]).inner.len() > 0,
            );
            let tables = page_tables(html);
            &&& tables.len() == kept.len()
            &&& forall|i: int|
                0 <= i < tables.len() ==> #[trigger] tables[i] == table_of(kept[i].branches)
        }),
{
    lemma_tables_filter(dom::selected_nested(html, "table"@, "tr"@, "th, td"@, seq![]));
}

proof fn lemma_tables_filter(found: Seq<BushModel>)
    ensures
        ({
            let kept = found.filter(
                |b: BushModel|
                    exists|k: int|
                        0 <= k < b.branches.len() && (#[trigger] b.branches[k]).inner.len() > 0,
            );
            let tables = tables_of(found);
            &&& tables.len() == kept.len()
            &&& forall|i: int|
                0 <= i < tables.len() ==> #[trigger] tables[i] == table_of(kept[i].branches)
        }),
    decreases found.len(),
{
    reveal(Seq::filter);
    if found.len() > 0 {
        lemma_tables_filter(found.drop_last());
        lemma_table_holds(found.last().branches);
    }
}

proof fn lemma_table_holds(rows: Seq<BranchModel>)
    ensures
        has_rows(table_of(rows)) <==> exists|k: int|
            0 <= k < rows.len() && (#[trigger] rows[k]).inner.len() > 0,
    decreases rows.len(),
{
    if rows.len() > 0 {
        let prior = rows.drop_last();
        lemma_table_holds(prior);
        if exists|k: int| 0 <= k < prior.len() && (#[trigger] prior[k]).inner.len() > 0 {
            let k = choose|k: int| 0 <= k < prior.len() && (#[trigger] prior[k]).inner.len() > 0;
            assert(rows[k].inner.len() > 0);
        }
        if rows.last().inner.len() > 0 {
            assert(rows[rows.len() - 1].inner.len() > 0);
        }
        if exists|k: int| 0 <= k < rows.len() && (#[trigger] rows[k]).inner.len() > 0 {
            let k = choose|k: int| 0 <= k < rows.len() && (#[trigger] rows[k]).inner.len() > 0;
            if k < prior.len() {
                assert(prior[k].inner.len() > 0);
            }
        }
    }
}

/// The mathematical value of a link or a table shows every part of it.
pub proof fn law_views_show_every_part(l: Link, t: Table)
    ensures
        l.deep_view().text == l.text@ && l.deep_view().href == l.href@,
        t.deep_view().headers == t.headers.deep_view() && t.deep_view().rows == t.rows.deep_view(),
{
}

} // verus!
