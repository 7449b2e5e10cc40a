//! Distilled pages, statistics and reports as text.
//!
//! Numbers with a fraction come in as text, already written out.

use vstd::prelude::*;

use crate::actions::{
    ActionTree, ButtonAction, ButtonModel, DownloadAction, DownloadModel, FormAction, FormModel,
    LinkAction, TreeModel,
};
use crate::actions;
use crate::cache::CacheReport;
use crate::pipeline::{Diagnostics, DiagnosticsModel, Distilled, DistilledModel, Stats};
use crate::planner;
use crate::structured::{Link, LinkModel, Table, TableModel};
use crate::text;

verus! {

/// The items, each with something before and behind it.
pub open spec fn wrapped(items: Seq<Seq<char>>, before: Seq<char>, behind: Seq<char>) -> Seq<char>
    decreases items.len(),
{
    if items.len() == 0 {
        seq![]
    } else {
        wrapped(items.drop_last(), before, behind) + before + items.last() + behind
    }
}

fn wrap_all(items: &Vec<String>, before: &str, behind: &str) -> (r: String)
    ensures
        r@ == wrapped(items.deep_view(), before@, behind@),
{
    let ghost all = items.deep_view();
    let mut out = String::new();
    assert(out@ =~= wrapped(all.take(0), before@, behind@));
    for i in 0..items.len()
        invariant
            all == items.deep_view(),
            out@ == wrapped(all.take(i as int), before@, behind@),
    {
        assert(all.take(i + 1).drop_last() =~= all.take(i as int));
        assert(all.take(i + 1).last() == items@[i as int]@);
        out.push_str(before);
        out.push_str(items[i].as_str());
        out.push_str(behind);
    }
    assert(all.take(all.len() as int) =~= all);
    out
}

fn join_all(items: &Vec<String>, sep: &str) -> (r: String)
    ensures
        r@ == text::joined(items.deep_view(), sep@),
{
    let ghost all = items.deep_view();
    let mut out = String::new();
    assert(out@ =~= text::joined(all.take(0), sep@));
    for i in 0..items.len()
        invariant
            all == items.deep_view(),
            out@ == text::joined(all.take(i as int), sep@),
    {
        proof {
            assert(all.take(i + 1) =~= all.take(i as int).push(items@[i as int]@));
            text::lemma_joined_push(all.take(i as int), sep@, items@[i as int]@);
        }
        if i > 0 {
            out.push_str(sep);
        }
        let ghost before = out@;
        out.push_str(items[i].as_str());
        assert(out@ =~= before + items@[i as int]@);
    }
    assert(all.take(all.len() as int) =~= all);
    out
}

fn decimal_of(n: usize) -> (r: String)
    ensures
        r@ == text::decimal(n as nat),
{
    text::to_decimal(n as u128)
}

// ---------------------------------------------------------------------------------------------
// Links and tables
// ---------------------------------------------------------------------------------------------

/// A link in Markdown. A link without text shows its URL.
pub open spec fn link_item(l: LinkModel) -> Seq<char> {
    "["@ + (if l.text.len() == 0 {
        l.href
    } else {
        l.text
    }) + "]("@ + l.href + ")"@
}

/// The links in Markdown.
pub open spec fn link_items(links: Seq<LinkModel>) -> Seq<Seq<char>> {
    Seq::new(links.len(), |i: int| link_item(links[i]))
}

fn list_links(links: &Vec<Link>) -> (r: Vec<String>)
    ensures
        r.deep_view() == link_items(links.deep_view()),
{
    let ghost all = links.deep_view();
    let mut out: Vec<String> = Vec::new();
    for i in 0..links.len()
        invariant
            all == links.deep_view(),
            out@.len() == i,
            forall|j: int| 0 <= j < i ==> out.deep_view()[j] == link_item(all[j]),
    {
        let l = &links[i];
        assert(all[i as int] == l.deep_view());
        let mut item = "[".to_string();
        if l.text.as_str().is_empty() {
            item.push_str(l.href.as_str());
        } else {
            item.push_str(l.text.as_str());
        }
        item.push_str("](");
        item.push_str(l.href.as_str());
        item.push_str(")");
        let ghost before = out.deep_view();
        out.push(item);
        assert(out.deep_view() =~= before.push(item@));
    }
    assert(out.deep_view() =~= link_items(all));
    out
}

/// A row of a table in Markdown.
pub open spec fn row_line(cells: Seq<Seq<char>>) -> Seq<char> {
    "| "@ + text::joined(cells, " | "@) + " |\n"@
}

/// The cells that stand below a header of `n` cells.
pub open spec fn rule(n: nat) -> Seq<Seq<char>> {
    Seq::new(n, |i: int| "---"@)
}

/// The rows of a table in Markdown.
pub open spec fn row_lines(rows: Seq<Seq<Seq<char>>>) -> Seq<char>
    decreases rows.len(),
{
    if rows.len() == 0 {
        seq![]
    } else {
        row_lines(rows.drop_last()) + row_line(rows.last())
    }
}

/// A table in Markdown.
pub open spec fn table_text(t: TableModel) -> Seq<char> {
    (if t.headers.len() == 0 {
        seq![]
    } else {
        row_line(t.headers) + row_line(rule(t.headers.len()))
    }) + row_lines(t.rows)
}

/// The tables in Markdown, each under a heading with its number, with `lead` before it.
pub open spec fn tables_text(tables: Seq<TableModel>, lead: Seq<char>) -> Seq<char>
    decreases tables.len(),
{
    if tables.len() == 0 {
        seq![]
    } else {
        tables_text(tables.drop_last(), lead) + lead + "## Table "@ + text::decimal(tables.len())
            + "\n\n"@ + table_text(tables.last())
    }
}

fn write_row(cells: &Vec<String>) -> (r: String)
    ensures
        r@ == row_line(cells.deep_view()),
{
    let mut out = "| ".to_string();
    out.push_str(join_all(cells, " | ").as_str());
    out.push_str(" |\n");
    out
}

fn write_rule(n: usize) -> (r: String)
    ensures
        r@ == row_line(rule(n as nat)),
{
    let mut cells: Vec<String> = Vec::new();
    for i in 0..n
        invariant
            cells@.len() == i,
            forall|j: int| 0 <= j < i ==> cells@[j]@ == "---"@,
    {
        cells.push("---".to_string());
    }
    assert(cells.deep_view() =~= rule(n as nat));
    write_row(&cells)
}

fn write_table(t: &Table) -> (r: String)
    ensures
        r@ == table_text(t.deep_view()),
{
    let mut out = String::new();
    if t.headers.len() > 0 {
        out.push_str(write_row(&t.headers).as_str());
        out.push_str(write_rule(t.headers.len()).as_str());
    }
    let ghost head = out@;
    assert(head =~= if t.deep_view().headers.len() == 0 {
        seq![]
    } else {
        row_line(t.deep_view().headers) + row_line(rule(t.deep_view().headers.len()))
    });
    let ghost rows = t.rows.deep_view();
    assert(out@ =~= head + row_lines(rows.take(0)));
    for i in 0..t.rows.len()
        invariant
            rows == t.rows.deep_view(),
            out@ == head + row_lines(rows.take(i as int)),
    {
        proof {
            assert(rows.take(i + 1).drop_last() =~= rows.take(i as int));
            assert(rows.take(i + 1).last() == t.rows@[i as int].deep_view());
        }
        let line = write_row(&t.rows[i]);
        let ghost before = out@;
        out.push_str(line.as_str());
        assert(out@ =~= head + (row_lines(rows.take(i as int)) + line@));
    }
    assert(rows.take(rows.len() as int) =~= rows);
    out
}

fn write_tables(tables: &Vec<Table>, lead: &str) -> (r: String)
    ensures
        r@ == tables_text(tables.deep_view(), lead@),
{
    let ghost all = tables.deep_view();
    let mut out = String::new();
    assert(out@ =~= tables_text(all.take(0), lead@));
    for i in 0..tables.len()
        invariant
            all == tables.deep_view(),
            out@ == tables_text(all.take(i as int), lead@),
    {
        proof {
            assert(all.take(i + 1).drop_last() =~= all.take(i as int));
            assert(all.take(i + 1).last() == tables@[i as int].deep_view());
        }
        out.push_str(lead);
        out.push_str("## Table ");
        out.push_str(text::to_decimal(i as u128 + 1).as_str());
        out.push_str("\n\n");
        out.push_str(write_table(&tables[i]).as_str());
    }
    assert(all.take(all.len() as int) =~= all);
    out
}

// ---------------------------------------------------------------------------------------------
// Actions
// ---------------------------------------------------------------------------------------------

/// A link among the actions.
pub open spec fn link_action(l: actions::LinkModel) -> Seq<char> {
    "["@ + l.action_id + "] "@ + l.text + " → "@ + l.href
}

/// A form among the actions.
pub open spec fn form_action(f: FormModel) -> Seq<char> {
    "["@ + f.action_id + "] form "@ + f.method + " "@ + f.action + " ("@ + text::decimal(
        f.fields.len(),
    ) + " fields, submit="@ + f.submit_id + ")"@
}

/// A button among the actions.
pub open spec fn button_action(b: ButtonModel) -> Seq<char> {
    "["@ + b.action_id + "] button: "@ + b.text
}

/// A download among the actions.
pub open spec fn download_action(d: DownloadModel) -> Seq<char> {
    "["@ + d.action_id + "] download: "@ + d.text + " → "@ + d.href
}

/// The actions of a tree, one line for each.
pub open spec fn action_items(t: TreeModel) -> Seq<Seq<char>> {
    Seq::new(t.links.len(), |i: int| link_action(t.links[i])) + Seq::new(
        t.forms.len(),
        |i: int| form_action(t.forms[i]),
    ) + Seq::new(t.buttons.len(), |i: int| button_action(t.buttons[i])) + Seq::new(
        t.downloads.len(),
        |i: int| download_action(t.downloads[i]),
    )
}

fn write_link_action(l: &LinkAction) -> (r: String)
    ensures
        r@ == link_action(l.deep_view()),
{
    let mut s = "[".to_string();
    s.push_str(l.action_id.as_str());
    s.push_str("] ");
    s.push_str(l.text.as_str());
    s.push_str(" → ");
    s.push_str(l.href.as_str());
    s
}

fn write_form_action(f: &FormAction) -> (r: String)
    ensures
        r@ == form_action(f.deep_view()),
{
    let mut s = "[".to_string();
    s.push_str(f.action_id.as_str());
    s.push_str("] form ");
    s.push_str(f.method.as_str());
    s.push_str(" ");
    s.push_str(f.action.as_str());
    s.push_str(" (");
    s.push_str(decimal_of(f.fields.len()).as_str());
    s.push_str(" fields, submit=");
    s.push_str(f.submit_id.as_str());
    s.push_str(")");
    s
}

fn write_button_action(b: &ButtonAction) -> (r: String)
    ensures
        r@ == button_action(b.deep_view()),
{
    let mut s = "[".to_string();
    s.push_str(b.action_id.as_str());
    s.push_str("] button: ");
    s.push_str(b.text.as_str());
    s
}

fn write_download_action(d: &DownloadAction) -> (r: String)
    ensures
        r@ == download_action(d.deep_view()),
{
    let mut s = "[".to_string();
    s.push_str(d.action_id.as_str());
    s.push_str("] download: ");
    s.push_str(d.text.as_str());
    s.push_str(" → ");
    s.push_str(d.href.as_str());
    s
}

fn list_actions(tree: &ActionTree) -> (r: Vec<String>)
    ensures
        r.deep_view() == action_items(tree.deep_view()),
{
    let ghost t = tree.deep_view();
    let ghost links = Seq::new(t.links.len(), |i: int| link_action(t.links[i]));
    let ghost forms = Seq::new(t.forms.len(), |i: int| form_action(t.forms[i]));
    let ghost buttons = Seq::new(t.buttons.len(), |i: int| button_action(t.buttons[i]));
    let ghost downloads = Seq::new(t.downloads.len(), |i: int| download_action(t.downloads[i]));
    let mut out: Vec<String> = Vec::new();
    assert(out.deep_view() =~= links.take(0));
    for i in 0..tree.links.len()
        invariant
            t == tree.deep_view(),
            links == Seq::new(t.links.len(), |i: int| link_action(t.links[i])),
            out.deep_view() == links.take(i as int),
    {
        let ghost before = out.deep_view();
        let item = write_link_action(&tree.links[i]);
        proof {
            assert(t.links[i as int] == tree.links@[i as int].deep_view());
            assert(links.take(i + 1) =~= links.take(i as int).push(item@));
        }
        out.push(item);
        assert(out.deep_view() =~= before.push(item@));
    }
    assert(out.deep_view() =~= links + forms.take(0));
    for i in 0..tree.forms.len()
        invariant
            t == tree.deep_view(),
            forms == Seq::new(t.forms.len(), |i: int| form_action(t.forms[i])),
            out.deep_view() == links + forms.take(i as int),
    {
        let ghost before = out.deep_view();
        let item = write_form_action(&tree.forms[i]);
        proof {
            assert(t.forms[i as int] == tree.forms@[i as int].deep_view());
            assert(links + forms.take(i + 1) =~= (links + forms.take(i as int)).push(item@));
        }
        out.push(item);
        assert(out.deep_view() =~= before.push(item@));
    }
    assert(out.deep_view() =~= links + forms + buttons.take(0));
    for i in 0..tree.buttons.len()
        invariant
            t == tree.deep_view(),
            buttons == Seq::new(t.buttons.len(), |i: int| button_action(t.buttons[i])),
            out.deep_view() == links + forms + buttons.take(i as int),
    {
        let ghost before = out.deep_view();
        let item = write_button_action(&tree.buttons[i]);
        proof {
            assert(t.buttons[i as int] == tree.buttons@[i as int].deep_view());
            assert(links + forms + buttons.take(i + 1) =~= (links + forms + buttons.take(
                i as int,
            )).push(item@));
        }
        out.push(item);
        assert(out.deep_view() =~= before.push(item@));
    }
    assert(out.deep_view() =~= links + forms + buttons + downloads.take(0));
    for i in 0..tree.downloads.len()
        invariant
            t == tree.deep_view(),
            downloads == Seq::new(t.downloads.len(), |i: int| download_action(t.downloads[i])),
            out.deep_view() == links + forms + buttons + downloads.take(i as int),
    {
        let ghost before = out.deep_view();
        let item = write_download_action(&tree.downloads[i]);
        proof {
            assert(t.downloads[i as int] == tree.downloads@[i as int].deep_view());
            assert(links + forms + buttons + downloads.take(i + 1) =~= (links + forms + buttons
                + downloads.take(i as int)).push(item@));
        }
        out.push(item);
        assert(out.deep_view() =~= before.push(item@));
    }
    assert(downloads.take(downloads.len() as int) =~= downloads);
    out
}

// ---------------------------------------------------------------------------------------------
// A page for a reader
// ---------------------------------------------------------------------------------------------

/// The content of a page: its plain text, or its title and its Markdown.
pub open spec fn page_text(d: DistilledModel, plain: bool) -> Seq<char> {
    if plain {
        d.text
    } else {
        (if d.title.len() == 0 {
            seq![]
        } else {
            "# "@ + d.title + "\n\n"@
        }) + d.markdown
    }
}

fn write_page(d: &Distilled, plain: bool) -> (r: String)
    ensures
        r@ == page_text(d.deep_view(), plain),
{
    if plain {
        return d.text.clone();
    }
    let mut out = String::new();
    if !d.title.as_str().is_empty() {
        out.push_str("# ");
        out.push_str(d.title.as_str());
        out.push_str("\n\n");
    }
    assert(out@ =~= if d.title@.len() == 0 {
        seq![]
    } else {
        "# "@ + d.title@ + "\n\n"@
    });
    out.push_str(d.markdown.as_str());
    out
}

/// The section with the links of a page.
pub open spec fn links_section(links: Option<Seq<LinkModel>>) -> Seq<char> {
    match links {
        Some(l) => "\n\n## Links ("@ + text::decimal(l.len()) + ")\n"@ + wrapped(
            link_items(l),
            "\n- "@,
            ""@,
        ),
        None => seq![],
    }
}

/// The sections with the tables of a page.
pub open spec fn tables_section(tables: Option<Seq<TableModel>>) -> Seq<char> {
    match tables {
        Some(t) => tables_text(t, "\n\n"@),
        None => seq![],
    }
}

/// The section with the actions of a page.
pub open spec fn actions_section(tree: Option<TreeModel>) -> Seq<char> {
    match tree {
        Some(t) => "\n\n## Actions ("@ + text::decimal(planner::action_total(tree) as nat)
            + ")\n"@ + wrapped(action_items(t), "\n- "@, ""@),
        None => seq![],
    }
}

/// The line with the statistics of a page. `percent` is the share that was saved.
pub open spec fn stats_section(stats: Option<Stats>, percent: Seq<char>) -> Seq<char> {
    match stats {
        Some(s) => "\n\n---\n_token stats: raw "@ + text::decimal(s.raw_tokens as nat)
            + " → output "@ + text::decimal(s.output_tokens as nat) + " ("@ + percent
            + "% saved)_"@,
        None => seq![],
    }
}

/// A page with everything that was asked for, as text.
pub open spec fn page_report(d: DistilledModel, plain: bool, percent: Seq<char>) -> Seq<char> {
    page_text(d, plain) + links_section(d.links) + tables_section(d.tables) + actions_section(
        d.actions,
    ) + stats_section(d.stats, percent)
}

fn write_links_section(links: &Option<Vec<Link>>) -> (r: String)
    ensures
        r@ == links_section(links.deep_view()),
{
    let mut out = String::new();
    if let Some(l) = links {
        out.push_str("\n\n## Links (");
        out.push_str(decimal_of(l.len()).as_str());
        out.push_str(")\n");
        out.push_str(wrap_all(&list_links(l), "\n- ", "").as_str());
        assert(out@ =~= links_section(links.deep_view()));
    }
    out
}

fn write_tables_section(tables: &Option<Vec<Table>>) -> (r: String)
    ensures
        r@ == tables_section(tables.deep_view()),
{
    match tables {
        Some(t) => write_tables(t, "\n\n"),
        None => String::new(),
    }
}

fn write_actions_section(tree: &Option<ActionTree>) -> (r: String)
    ensures
        r@ == actions_section(tree.deep_view()),
{
    let mut out = String::new();
    if let Some(t) = tree {
        out.push_str("\n\n## Actions (");
        out.push_str(decimal_of(planner::count_actions(tree)).as_str());
        out.push_str(")\n");
        out.push_str(wrap_all(&list_actions(t), "\n- ", "").as_str());
        assert(out@ =~= actions_section(tree.deep_view()));
    }
    out
}

fn write_stats_section(stats: &Option<Stats>, percent: &str) -> (r: String)
    ensures
        r@ == stats_section(stats.deep_view(), percent@),
{
    let mut out = String::new();
    if let Some(s) = stats {
        out.push_str("\n\n---\n_token stats: raw ");
        out.push_str(decimal_of(s.raw_tokens).as_str());
        out.push_str(" → output ");
        out.push_str(decimal_of(s.output_tokens).as_str());
        out.push_str(" (");
        out.push_str(percent);
        out.push_str("% saved)_");
        assert(out@ =~= stats_section(stats.deep_view(), percent@));
    }
    out
}

/// Writes a page with everything that was asked for: as plain text for the format `text`, and as
/// Markdown for every other format but `json`. `percent` is the share of tokens that was saved.
pub fn render(d: &Distilled, format: &str, percent: &str) -> (r: String)
    requires
        format@ != "json"@,
    ensures
        r@ == page_report(d.deep_view(), format@ == "text"@, percent@),
{
    let mut out = write_page(d, text::same(format, "text"));
    out.push_str(write_links_section(&d.links).as_str());
    out.push_str(write_tables_section(&d.tables).as_str());
    out.push_str(write_actions_section(&d.actions).as_str());
    out.push_str(write_stats_section(&d.stats, percent).as_str());
    out
}

/// The line between two pages.
pub open spec fn divider() -> Seq<char> {
    "\n\n═══════════════════════════════\n\n"@
}

/// What became of one page of many.
#[derive(Debug)]
pub struct PageOutcome {
    pub url: String,
    /// The page as text; nothing where it failed.
    pub page: Option<String>,
    /// Why it failed.
    pub message: String,
}

/// What became of one page of many, as a mathematical value.
#[verifier::ext_equal]
pub struct PageOutcomeModel {
    pub url: Seq<char>,
    pub page: Option<Seq<char>>,
    pub message: Seq<char>,
}

impl DeepView for PageOutcome {
    type V = PageOutcomeModel;

    open spec fn deep_view(&self) -> PageOutcomeModel {
        PageOutcomeModel {
            url: self.url@,
            page: self.page.deep_view(),
            message: self.message@,
        }
    }
}

/// One page of many.
pub open spec fn page_entry(p: PageOutcomeModel) -> Seq<char> {
    match p.page {
        Some(page) => "<!-- "@ + p.url + " -->\n"@ + page,
        None => "✗ "@ + p.url + ": "@ + p.message,
    }
}

/// Many pages, with a line between each two.
pub open spec fn pages_text(pages: Seq<PageOutcomeModel>) -> Seq<char> {
    text::joined(Seq::new(pages.len(), |i: int| page_entry(pages[i])), divider())
}

/// Writes many pages one behind the other, and the failures in their places.
pub fn join_pages(pages: &Vec<PageOutcome>) -> (r: String)
    ensures
        r@ == pages_text(pages.deep_view()),
{
    let ghost all = pages.deep_view();
    let mut items: Vec<String> = Vec::new();
    for i in 0..pages.len()
        invariant
            all == pages.deep_view(),
            items@.len() == i,
            forall|j: int| 0 <= j < i ==> items.deep_view()[j] == page_entry(all[j]),
    {
        let p = &pages[i];
        assert(all[i as int] == p.deep_view());
        let item = match &p.page {
            Some(page) => {
                let mut s = "<!-- ".to_string();
                s.push_str(p.url.as_str());
                s.push_str(" -->\n");
                s.push_str(page.as_str());
                s
            },
            None => {
                let mut s = "✗ ".to_string();
                s.push_str(p.url.as_str());
                s.push_str(": ");
                s.push_str(p.message.as_str());
                s
            },
        };
        let ghost before = items.deep_view();
        items.push(item);
        assert(items.deep_view() =~= before.push(item@));
    }
    assert(items.deep_view() =~= Seq::new(all.len(), |i: int| page_entry(all[i])));
    join_all(&items, "\n\n═══════════════════════════════\n\n")
}

// ---------------------------------------------------------------------------------------------
// A page on a terminal
// ---------------------------------------------------------------------------------------------

/// A page with its links and tables, as a terminal shows it.
pub open spec fn terminal_text(d: DistilledModel, plain: bool) -> Seq<char> {
    page_text(d, plain) + "\n"@ + (match d.links {
        Some(l) => "\n## Links ("@ + text::decimal(l.len()) + ")\n\n"@ + wrapped(
            link_items(l),
            "- "@,
            "\n"@,
        ),
        None => seq![],
    }) + (match d.tables {
        Some(t) => tables_text(t, "\n"@),
        None => seq![],
    })
}

/// Writes a page with its links and tables for a terminal.
pub fn terminal_page(d: &Distilled, plain: bool) -> (r: String)
    ensures
        r@ == terminal_text(d.deep_view(), plain),
{
    let mut out = write_page(d, plain);
    out.push_str("\n");
    let ghost page = out@;
    if let Some(l) = &d.links {
        let mut section = "\n## Links (".to_string();
        section.push_str(decimal_of(l.len()).as_str());
        section.push_str(")\n\n");
        section.push_str(wrap_all(&list_links(l), "- ", "\n").as_str());
        out.push_str(section.as_str());
    }
    let ghost listed = match d.deep_view().links {
        Some(l) => "\n## Links ("@ + text::decimal(l.len()) + ")\n\n"@ + wrapped(
            link_items(l),
            "- "@,
            "\n"@,
        ),
        None => seq![],
    };
    assert(out@ =~= page + listed);
    if let Some(t) = &d.tables {
        out.push_str(write_tables(t, "\n").as_str());
    }
    assert(out@ =~= terminal_text(d.deep_view(), plain));
    out
}

/// The text with spaces before it, up to `width` characters.
pub open spec fn padded(s: Seq<char>, width: nat) -> Seq<char> {
    if s.len() >= width {
        s
    } else {
        Seq::new((width - s.len()) as nat, |i: int| ' ') + s
    }
}

fn pad(s: &str, width: usize) -> (r: String)
    ensures
        r@ == padded(s@, width as nat),
{
    let n: usize = text::length(s);
    let mut out = String::new();
    let missing: usize = width.saturating_sub(n);
    for i in 0..missing
        invariant
            out@ == Seq::new(i as nat, |k: int| ' '),
    {
        out.push(' ');
        assert(out@ =~= Seq::new((i + 1) as nat, |k: int| ' '));
    }
    out.push_str(s);
    assert(out@ =~= padded(s@, width as nat));
    out
}

/// A number with spaces before it, up to 8 characters.
pub open spec fn column(n: usize) -> Seq<char> {
    padded(text::decimal(n as nat), 8)
}

fn write_column(n: usize) -> (r: String)
    ensures
        r@ == column(n),
{
    pad(decimal_of(n).as_str(), 8)
}

/// The statistics of a page on a terminal. `percent` is the share that was saved.
pub open spec fn stats_lines(s: Stats, percent: Seq<char>) -> Seq<char> {
    "\n── token stats ───────────────\nraw bytes     : "@ + column(s.raw_bytes)
        + "\nraw tokens    : "@ + column(s.raw_tokens) + "\noutput tokens : "@ + column(
        s.output_tokens,
    ) + "\nsaved         : "@ + column(s.saved_tokens) + "  ("@ + percent + "%)\n"@
}

/// Writes the statistics of a page for a terminal.
pub fn terminal_stats(s: &Stats, percent: &str) -> (r: String)
    ensures
        r@ == stats_lines(*s, percent@),
{
    let mut out = "\n── token stats ───────────────\nraw bytes     : ".to_string();
    out.push_str(write_column(s.raw_bytes).as_str());
    out.push_str("\nraw tokens    : ");
    out.push_str(write_column(s.raw_tokens).as_str());
    out.push_str("\noutput tokens : ");
    out.push_str(write_column(s.output_tokens).as_str());
    out.push_str("\nsaved         : ");
    out.push_str(write_column(s.saved_tokens).as_str());
    out.push_str("  (");
    out.push_str(percent);
    out.push_str("%)\n");
    out
}

/// Yes or no.
pub open spec fn yes_no(b: bool) -> Seq<char> {
    if b {
        "true"@
    } else {
        "false"@
    }
}

fn write_bool(b: bool) -> (r: &'static str)
    ensures
        r@ == yes_no(b),
{
    if b {
        "true"
    } else {
        "false"
    }
}

/// The diagnostics of a page on a terminal. `ratio` is the share of the page that was kept.
pub open spec fn diagnostics_lines(d: DiagnosticsModel, ratio: Seq<char>) -> Seq<char> {
    "\n── diagnostics ───────────────\nprofile          : "@ + d.profile
        + "\nraw bytes        : "@ + column(d.raw_bytes) + "\noutput chars     : "@ + column(
        d.output_chars,
    ) + "\noutput tokens    : "@ + column(d.output_tokens) + "\nextraction ratio : "@ + padded(
        ratio,
        8,
    ) + "\nlinks / tables   : "@ + text::decimal(d.link_count as nat) + " / "@ + text::decimal(
        d.table_count as nat,
    ) + "\nheadless         : "@ + yes_no(d.used_headless) + "\ntruncated        : "@ + yes_no(
        d.truncated,
    ) + "\n"@ + if d.low_content {
        "⚠ low content — extraction may have failed; try --profile full\n"@
    } else {
        ""@
    }
}

/// Writes the diagnostics of a page for a terminal.
pub fn terminal_diagnostics(d: &Diagnostics, ratio: &str) -> (r: String)
    ensures
        r@ == diagnostics_lines(d.deep_view(), ratio@),
{
    let mut out = "\n── diagnostics ───────────────\nprofile          : ".to_string();
    out.push_str(d.profile);
    out.push_str("\nraw bytes        : ");
    out.push_str(write_column(d.raw_bytes).as_str());
    out.push_str("\noutput chars     : ");
    out.push_str(write_column(d.output_chars).as_str());
    out.push_str("\noutput tokens    : ");
    out.push_str(write_column(d.output_tokens).as_str());
    out.push_str("\nextraction ratio : ");
    out.push_str(pad(ratio, 8).as_str());
    out.push_str("\nlinks / tables   : ");
    out.push_str(decimal_of(d.link_count).as_str());
    out.push_str(" / ");
    out.push_str(decimal_of(d.table_count).as_str());
    out.push_str("\nheadless         : ");
    out.push_str(write_bool(d.used_headless));
    out.push_str("\ntruncated        : ");
    out.push_str(write_bool(d.truncated));
    out.push_str("\n");
    if d.low_content {
        out.push_str("⚠ low content — extraction may have failed; try --profile full\n");
    } else {
        out.push_str("");
    }
    out
}

/// The pages that came, with a line between each two.
pub open spec fn arrived_text(pages: Seq<PageOutcomeModel>) -> Seq<char>
    decreases pages.len(),
{
    if pages.len() == 0 {
        seq![]
    } else {
        let before = arrived_text(pages.drop_last());
        match pages.last().page {
            Some(page) => before + (if arrived(pages.drop_last()) {
                divider()
            } else {
                ""@
            }) + ("<!-- "@ + pages.last().url + " -->\n"@ + page),
            None => before,
        }
    }
}

/// One of the pages came.
pub open spec fn arrived(pages: Seq<PageOutcomeModel>) -> bool {
    exists|i: int| 0 <= i < pages.len() && (#[trigger] pages[i]).page is Some
}

/// Writes the pages that came for a terminal, one behind the other. The failures are left out.
pub fn terminal_pages(pages: &Vec<PageOutcome>) -> (r: String)
    ensures
        r@ == arrived_text(pages.deep_view()),
{
    let ghost all = pages.deep_view();
    let mut out = String::new();
    let mut first = true;
    assert(out@ =~= arrived_text(all.take(0)));
    for i in 0..pages.len()
        invariant
            all == pages.deep_view(),
            out@ == arrived_text(all.take(i as int)),
            first == !arrived(all.take(i as int)),
    {
        let p = &pages[i];
        let ghost prior = all.take(i as int);
        let ghost now = all.take(i + 1);
        proof {
            assert(now.drop_last() =~= prior);
            assert(now.last() == p.deep_view());
            if arrived(prior) {
                let k = choose|k: int| 0 <= k < prior.len() && (#[trigger] prior[k]).page is Some;
                assert(now[k] == prior[k]);
            }
            if arrived(now) && now.last().page is None {
                let k = choose|k: int| 0 <= k < now.len() && (#[trigger] now[k]).page is Some;
                assert(prior[k] == now[k]);
            }
            if now.last().page is Some {
                assert(now[i as int].page is Some);
            }
        }
        if let Some(page) = &p.page {
            if first {
                out.push_str("");
            } else {
                out.push_str("\n\n═══════════════════════════════\n\n");
            }
            let mut entry = "<!-- ".to_string();
            entry.push_str(p.url.as_str());
            entry.push_str(" -->\n");
            entry.push_str(page.as_str());
            out.push_str(entry.as_str());
            first = false;
        }
    }
    assert(all.take(all.len() as int) =~= all);
    out
}

// ---------------------------------------------------------------------------------------------
// The cache on a terminal
// ---------------------------------------------------------------------------------------------

/// A line on one part of the cache.
pub open spec fn cache_line(name: Seq<char>, entries: nat, size: Seq<char>) -> Seq<char> {
    name + padded(text::decimal(entries), 5) + " entries  "@ + size + "\n"@
}

fn write_cache_line(name: &str, entries: usize, size: &str) -> (r: String)
    ensures
        r@ == cache_line(name@, entries as nat, size@),
{
    let mut out = name.to_string();
    out.push_str(pad(decimal_of(entries).as_str(), 5).as_str());
    out.push_str(" entries  ");
    out.push_str(size);
    out.push_str("\n");
    out
}

/// Writes a report on the cache. The sizes come written out.
pub fn cache_info(report: &CacheReport, fetch: &str, render: &str, total: &str) -> (r: String)
    requires
        report.fetch_entries + report.render_entries <= usize::MAX,
    ensures
        r@ == cache_line("fetch  : "@, report.fetch_entries as nat, fetch@) + cache_line(
            "render : "@,
            report.render_entries as nat,
            render@,
        ) + cache_line(
            "total  : "@,
            (report.fetch_entries + report.render_entries) as nat,
            total@,
        ),
{
    let mut out = write_cache_line("fetch  : ", report.fetch_entries, fetch);
    out.push_str(write_cache_line("render : ", report.render_entries, render).as_str());
    out.push_str(write_cache_line("total  : ", report.total_entries(), total).as_str());
    out
}

/// Writes what pruning the cache did. `freed` is the size of what was removed.
pub fn cache_pruned(removed: usize, older_than: u64, freed: &str) -> (r: String)
    ensures
        r@ == "pruned "@ + text::decimal(removed as nat) + " entries older than "@ + text::decimal(
            older_than as nat,
        ) + "s ("@ + freed@ + " freed)\n"@,
{
    let mut out = "pruned ".to_string();
    out.push_str(decimal_of(removed).as_str());
    out.push_str(" entries older than ");
    out.push_str(text::to_decimal(older_than as u128).as_str());
    out.push_str("s (");
    out.push_str(freed);
    out.push_str(" freed)\n");
    out
}

/// Writes what clearing the cache did. `freed` is the size of what was removed.
pub fn cache_cleared(removed: usize, freed: &str) -> (r: String)
    ensures
        r@ == "cleared "@ + text::decimal(removed as nat) + " entries ("@ + freed@ + " freed)\n"@,
{
    let mut out = "cleared ".to_string();
    out.push_str(decimal_of(removed).as_str());
    out.push_str(" entries (");
    out.push_str(freed);
    out.push_str(" freed)\n");
    out
}

// ---------------------------------------------------------------------------------------------
// Laws
// ---------------------------------------------------------------------------------------------

/// Items are written one behind the other, each with what goes before and behind it.
pub proof fn law_items_are_written_in_order(
    front: Seq<Seq<char>>,
    item: Seq<char>,
    before: Seq<char>,
    behind: Seq<char>,
)
    ensures
        wrapped(seq![], before, behind).len() == 0,
        wrapped(front.push(item), before, behind) == wrapped(front, before, behind) + before + item
            + behind,
{
    assert(front.push(item).drop_last() =~= front);
    assert(front.push(item).last() == item);
}

/// A link is written with its text, or with its URL where it has none, and its URL.
pub proof fn law_links_are_written_in_markdown(links: Seq<LinkModel>, i: int)
    requires
        0 <= i < links.len(),
    ensures
        link_items(links).len() == links.len(),
        links[i].text.len() > 0 ==> link_items(links)[i] == seq!['['] + links[i].text + seq![']', '(']
            + links[i].href + seq![')'],
        links[i].text.len() == 0 ==> link_items(links)[i] == seq!['['] + links[i].href + seq![
            ']',
            '(',
        ] + links[i].href + seq![')'],
{
    reveal_strlit("[");
    reveal_strlit("](");
    reveal_strlit(")");
    assert("["@ =~= seq!['[']);
    assert("]("@ =~= seq![']', '(']);
    assert(")"@ =~= seq![')']);
}

/// A table is written row by row, the header first and a rule with as many cells below it. The
/// cells of a row stand between bars.
pub proof fn law_tables_are_written_row_by_row(
    headers: Seq<Seq<char>>,
    rows: Seq<Seq<Seq<char>>>,
    row: Seq<Seq<char>>,
)
    ensures
        table_text(TableModel { headers, rows: rows.push(row) }) == table_text(
            TableModel { headers, rows },
        ) + ("| "@ + text::joined(row, " | "@) + " |\n"@),
        table_text(TableModel { headers: seq![], rows: seq![] }).len() == 0,
        headers.len() > 0 ==> table_text(TableModel { headers, rows: seq![] }) == ("| "@
            + text::joined(headers, " | "@) + " |\n"@) + ("| "@ + text::joined(
            Seq::new(headers.len(), |i: int| "---"@),
            " | "@,
        ) + " |\n"@),
{
    assert(rows.push(row).drop_last() =~= rows);
    assert(rows.push(row).last() == row);
    let all = rows.push(row);
    let head: Seq<char> = if headers.len() == 0 {
        seq![]
    } else {
        row_line(headers) + row_line(rule(headers.len()))
    };
    assert(head + (row_lines(rows) + row_line(row)) =~= (head + row_lines(rows)) + row_line(row));
    assert(row_lines(seq![]) =~= seq![]);
    assert(head + row_lines(seq![]) =~= head);
}

/// Tables are numbered from one on, each under its heading.
pub proof fn law_tables_are_numbered(tables: Seq<TableModel>, t: TableModel, lead: Seq<char>)
    ensures
        tables_text(seq![], lead).len() == 0,
        tables_text(tables.push(t), lead) == tables_text(tables, lead) + lead + "## Table "@
            + text::decimal(tables.len() + 1) + "\n\n"@ + table_text(t),
{
    assert(tables.push(t).drop_last() =~= tables);
    assert(tables.push(t).last() == t);
}

/// Every action is listed with its id: links, forms, buttons and downloads, in that order.
pub proof fn law_every_action_is_listed(t: TreeModel, i: int)
    ensures
        action_items(t).len() == t.links.len() + t.forms.len() + t.buttons.len()
            + t.downloads.len(),
        0 <= i < t.links.len() ==> action_items(t)[i] == "["@ + t.links[i].action_id + "] "@
            + t.links[i].text + " → "@ + t.links[i].href,
        0 <= i < t.forms.len() ==> action_items(t)[t.links.len() + i] == "["@ + t.forms[i].action_id
            + "] form "@ + t.forms[i].method + " "@ + t.forms[i].action + " ("@ + text::decimal(
            t.forms[i].fields.len(),
        ) + " fields, submit="@ + t.forms[i].submit_id + ")"@,
        0 <= i < t.buttons.len() ==> action_items(t)[t.links.len() + t.forms.len() + i] == "["@
            + t.buttons[i].action_id + "] button: "@ + t.buttons[i].text,
        0 <= i < t.downloads.len() ==> action_items(t)[t.links.len() + t.forms.len()
            + t.buttons.len() + i] == "["@ + t.downloads[i].action_id + "] download: "@
            + t.downloads[i].text + " → "@ + t.downloads[i].href,
{
}

/// A page is its text where plain text is wanted, and otherwise its Markdown under its title.
pub proof fn law_a_page_is_its_text_or_its_markdown(d: DistilledModel)
    ensures
        page_text(d, true) == d.text,
        d.title.len() == 0 ==> page_text(d, false) == d.markdown,
        d.title.len() > 0 ==> page_text(d, false) == "# "@ + d.title + "\n\n"@ + d.markdown,
{
    assert(Seq::<char>::empty() + d.markdown =~= d.markdown);
}

/// A report is the page, and behind it what was found and was asked for: the links, the tables, the
/// actions and the statistics, in that order. What was not asked for adds nothing.
pub proof fn law_a_report_holds_what_was_asked_for(
    d: DistilledModel,
    plain: bool,
    percent: Seq<char>,
)
    ensures
        page_report(d, plain, percent) == page_text(d, plain) + links_section(d.links)
            + tables_section(d.tables) + actions_section(d.actions) + stats_section(
            d.stats,
            percent,
        ),
        d.links is None ==> links_section(d.links).len() == 0,
        d.links matches Some(l) ==> links_section(d.links) == "\n\n## Links ("@ + text::decimal(
            l.len(),
        ) + ")\n"@ + wrapped(link_items(l), "\n- "@, ""@),
        d.tables is None ==> tables_section(d.tables).len() == 0,
        d.tables matches Some(t) ==> tables_section(d.tables) == tables_text(t, "\n\n"@),
        d.actions is None ==> actions_section(d.actions).len() == 0,
        d.actions matches Some(t) ==> (action_items(t).len() <= usize::MAX ==> actions_section(
            d.actions,
        ) == "\n\n## Actions ("@ + text::decimal(action_items(t).len()) + ")\n"@ + wrapped(
            action_items(t),
            "\n- "@,
            ""@,
        )),
        d.stats is None ==> stats_section(d.stats, percent).len() == 0,
        d.stats matches Some(s) ==> stats_section(d.stats, percent)
            == "\n\n---\n_token stats: raw "@ + text::decimal(s.raw_tokens as nat) + " → output "@
            + text::decimal(s.output_tokens as nat) + " ("@ + percent + "% saved)_"@,
{
}

/// Many pages are written one behind the other with a line between each two. A page that came
/// stands under its URL, and one that failed is named with the reason.
pub proof fn law_many_pages_are_written_in_order(pages: Seq<PageOutcomeModel>, p: PageOutcomeModel)
    ensures
        pages_text(seq![]).len() == 0,
        pages.len() == 0 ==> pages_text(pages.push(p)) == page_entry(p),
        pages.len() > 0 ==> pages_text(pages.push(p)) == pages_text(pages) + divider()
            + page_entry(p),
        p.page matches Some(page) ==> page_entry(p) == "<!-- "@ + p.url + " -->\n"@ + page,
        p.page is None ==> page_entry(p) == "✗ "@ + p.url + ": "@ + p.message,
{
    let items = Seq::new(pages.len(), |i: int| page_entry(pages[i]));
    let all = Seq::new(pages.push(p).len(), |i: int| page_entry(pages.push(p)[i]));
    assert(all =~= items.push(page_entry(p)));
    text::lemma_joined_push(items, divider(), page_entry(p));
    let none = Seq::<PageOutcomeModel>::empty();
    assert(Seq::new(none.len(), |i: int| page_entry(none[i])) =~= seq![]);
    assert(seq![] =~= none);
}

/// A terminal shows the pages that came, in their order, with a line between each two.
pub proof fn law_a_terminal_shows_what_came(pages: Seq<PageOutcomeModel>)
    ensures
        arrived_text(pages) == pages_text(
            pages.filter(|p: PageOutcomeModel| p.page is Some),
        ),
    decreases pages.len(),
{
    reveal(Seq::filter);
    reveal_strlit("");
    let kept = pages.filter(|p: PageOutcomeModel| p.page is Some);
    law_many_pages_are_written_in_order(seq![], PageOutcomeModel {
        url: seq![],
        page: None,
        message: seq![],
    });
    if pages.len() == 0 {
        assert(kept =~= seq![]);
        assert(arrived_text(pages) =~= pages_text(kept));
    } else {
        let prior = pages.drop_last();
        let before = prior.filter(|p: PageOutcomeModel| p.page is Some);
        law_a_terminal_shows_what_came(prior);
        lemma_arrived(prior);
        let p = pages.last();
        if p.page is Some {
            law_many_pages_are_written_in_order(before, p);
            assert(kept == before.push(p));
            let entry = page_entry(p);
            assert(""@ =~= seq![]);
            if before.len() == 0 {
                assert(before =~= seq![]);
                assert(arrived_text(prior) + ""@ + entry =~= entry);
            }
        }
    }
}

proof fn lemma_arrived(pages: Seq<PageOutcomeModel>)
    ensures
        arrived(pages) <==> pages.filter(|p: PageOutcomeModel| p.page is Some).len() > 0,
    decreases pages.len(),
{
    reveal(Seq::filter);
    if pages.len() > 0 {
        let prior = pages.drop_last();
        lemma_arrived(prior);
        if arrived(prior) {
            let k = choose|k: int| 0 <= k < prior.len() && (#[trigger] prior[k]).page is Some;
            assert(pages[k].page is Some);
        }
        if pages.last().page is Some {
            assert(pages[pages.len() - 1].page is Some);
        }
        if arrived(pages) && pages.last().page is None {
            let k = choose|k: int| 0 <= k < pages.len() && (#[trigger] pages[k]).page is Some;
            assert(prior[k].page is Some);
        }
    }
}

/// On a terminal a page is followed by its links and its tables, where they were asked for.
pub proof fn law_a_terminal_page_has_its_links_and_tables(d: DistilledModel, plain: bool)
    ensures
        d.links is None && d.tables is None ==> terminal_text(d, plain) == page_text(d, plain)
            + "\n"@,
        d.links matches Some(l) ==> (d.tables is None ==> terminal_text(d, plain) == page_text(
            d,
            plain,
        ) + "\n"@ + ("\n## Links ("@ + text::decimal(l.len()) + ")\n\n"@ + wrapped(
            link_items(l),
            "- "@,
            "\n"@,
        ))),
        d.tables matches Some(t) ==> terminal_text(d, plain) == terminal_text(
            DistilledModel { tables: None, ..d },
            plain,
        ) + tables_text(t, "\n"@),
{
    let none = Seq::<char>::empty();
    let bare = DistilledModel { tables: None, ..d };
    assert(page_text(bare, plain) == page_text(d, plain));
    assert(terminal_text(bare, plain) + none =~= terminal_text(bare, plain));
    if d.links is None && d.tables is None {
        assert(terminal_text(d, plain) =~= page_text(d, plain) + "\n"@);
    }
    if let Some(l) = d.links {
        let section = "\n## Links ("@ + text::decimal(l.len()) + ")\n\n"@ + wrapped(
            link_items(l),
            "- "@,
            "\n"@,
        );
        if d.tables is None {
            assert(terminal_text(d, plain) =~= page_text(d, plain) + "\n"@ + section);
        }
    }
    if let Some(t) = d.tables {
        assert(terminal_text(d, plain) =~= terminal_text(bare, plain) + tables_text(t, "\n"@));
    }
}

/// A text is padded with spaces before it, up to the width and no further.
pub proof fn law_padding_goes_before_the_text(s: Seq<char>, width: nat)
    ensures
        s.len() >= width ==> padded(s, width) == s,
        s.len() < width ==> {
            &&& padded(s, width).len() == width
            &&& padded(s, width).skip(width - s.len()) == s
            &&& forall|i: int| 0 <= i < width - s.len() ==> #[trigger] padded(s, width)[i] == ' '
        },
{
    if s.len() < width {
        assert(padded(s, width).skip(width - s.len()) =~= s);
    }
}

/// The statistics on a terminal name every number in its own line, and the share that was saved.
pub proof fn law_statistics_name_their_numbers(s: Stats, percent: Seq<char>)
    ensures
        stats_lines(s, percent) == "\n── token stats ───────────────\nraw bytes     : "@ + padded(
            text::decimal(s.raw_bytes as nat),
            8,
        ) + "\nraw tokens    : "@ + padded(text::decimal(s.raw_tokens as nat), 8)
            + "\noutput tokens : "@ + padded(text::decimal(s.output_tokens as nat), 8)
            + "\nsaved         : "@ + padded(text::decimal(s.saved_tokens as nat), 8) + "  ("@
            + percent + "%)\n"@,
{
}

/// The diagnostics on a terminal warn exactly where a page has little content.
pub proof fn law_diagnostics_warn_of_little_content(d: DiagnosticsModel, ratio: Seq<char>)
    ensures
        d.low_content ==> diagnostics_lines(d, ratio) == diagnostics_lines(
            DiagnosticsModel { low_content: false, ..d },
            ratio,
        ) + "⚠ low content — extraction may have failed; try --profile full\n"@,
        !d.low_content ==> diagnostics_lines(d, ratio)
            == "\n── diagnostics ───────────────\nprofile          : "@ + d.profile
            + "\nraw bytes        : "@ + padded(text::decimal(d.raw_bytes as nat), 8)
            + "\noutput chars     : "@ + padded(text::decimal(d.output_chars as nat), 8)
            + "\noutput tokens    : "@ + padded(text::decimal(d.output_tokens as nat), 8)
            + "\nextraction ratio : "@ + padded(ratio, 8) + "\nlinks / tables   : "@
            + text::decimal(d.link_count as nat) + " / "@ + text::decimal(d.table_count as nat)
            + "\nheadless         : "@ + (if d.used_headless {
            "true"@
        } else {
            "false"@
        }) + "\ntruncated        : "@ + (if d.truncated {
            "true"@
        } else {
            "false"@
        }) + "\n"@,
{
    reveal_strlit("");
    let plain = DiagnosticsModel { low_content: false, ..d };
    assert(""@ =~= seq![]);
    let body = diagnostics_lines(plain, ratio);
    assert(body + ""@ =~= body);
    if d.low_content {
        assert(diagnostics_lines(d, ratio) =~= body
            + "⚠ low content — extraction may have failed; try --profile full\n"@);
    } else {
        assert(diagnostics_lines(d, ratio) =~= "\n── diagnostics ───────────────\nprofile          : "@
            + d.profile + "\nraw bytes        : "@ + padded(text::decimal(d.raw_bytes as nat), 8)
            + "\noutput chars     : "@ + padded(text::decimal(d.output_chars as nat), 8)
            + "\noutput tokens    : "@ + padded(text::decimal(d.output_tokens as nat), 8)
            + "\nextraction ratio : "@ + padded(ratio, 8) + "\nlinks / tables   : "@
            + text::decimal(d.link_count as nat) + " / "@ + text::decimal(d.table_count as nat)
            + "\nheadless         : "@ + (if d.used_headless {
            "true"@
        } else {
            "false"@
        }) + "\ntruncated        : "@ + (if d.truncated {
            "true"@
        } else {
            "false"@
        }) + "\n"@);
    }
}

/// A line on the cache names its part, the number of its entries and their size.
pub proof fn law_a_cache_line_names_its_part(name: Seq<char>, entries: nat, size: Seq<char>)
    ensures
        cache_line(name, entries, size) == name + padded(text::decimal(entries), 5) + " entries  "@
            + size + "\n"@,
{
}

/// The line between two pages is a double rule of thirty-one signs, with a blank line before and
/// behind it.
pub proof fn law_pages_are_divided_by_a_rule()
    ensures
        divider().len() == 35,
        forall|i: int| 2 <= i < 33 ==> #[trigger] divider()[i] == '═',
        divider()[0] == '\n' && divider()[1] == '\n' && divider()[33] == '\n' && divider()[34] == '\n',
{
    reveal_strlit("\n\n═══════════════════════════════\n\n");
}

} // verus!
