//! The operable parts of a page: links, forms with their fields, standalone buttons and
//! downloads, each with a stable id given by document order, by which it can be acted on later
//! without a browser.

use vstd::prelude::*;

use crate::dom;
use crate::dom::{Branch, BranchModel, BushModel, Element, ElementModel, PlacedModel};
use crate::error;
use crate::text;
use crate::weburl;

verus! {

/// The operable surface of a page.
#[derive(Debug, Clone)]
pub struct ActionTree {
    pub links: Vec<LinkAction>,
    pub forms: Vec<FormAction>,
    pub buttons: Vec<ButtonAction>,
    pub downloads: Vec<DownloadAction>,
}

/// A link that can be followed.
#[derive(Debug, Clone)]
pub struct LinkAction {
    pub action_id: String,
    pub text: String,
    pub href: String,
}

/// A form that can be submitted without JavaScript.
#[derive(Debug, Clone)]
pub struct FormAction {
    pub action_id: String,
    /// `GET` or `POST`.
    pub method: String,
    /// The absolute URL that the form submits to.
    pub action: String,
    pub fields: Vec<FormField>,
    /// The id to submit this form by, such as `form_0.submit`.
    pub submit_id: String,
}

/// A single form control.
#[derive(Debug, Clone)]
pub struct FormField {
    pub name: String,
    /// `text`, `password`, `email`, `checkbox`, `hidden`, `select`, `textarea` and so on.
    pub kind: String,
    pub value: Option<String>,
    pub options: Vec<FormOption>,
    pub required: bool,
}

/// A selectable option: `value` is what a submit sends, `label` is what a user sees.
#[derive(Debug, Clone)]
pub struct FormOption {
    pub value: String,
    pub label: String,
    pub selected: bool,
}

/// A button outside any form.
#[derive(Debug, Clone)]
pub struct ButtonAction {
    pub action_id: String,
    pub text: String,
    /// `button`, `submit` or `reset`.
    pub kind: String,
}

/// A link that downloads a file.
#[derive(Debug, Clone)]
pub struct DownloadAction {
    pub action_id: String,
    pub text: String,
    pub href: String,
    pub filename: Option<String>,
}

/// Caps that keep the action tree of a huge page small.
#[derive(Debug, Clone, Copy, PartialEq, Eq, Structural)]
pub struct ActionLimits {
    pub max_links: usize,
    pub max_forms: usize,
    pub max_buttons: usize,
    pub max_downloads: usize,
    pub max_fields_per_form: usize,
    pub max_options_per_field: usize,
}

impl Default for ActionLimits {
    fn default() -> (r: ActionLimits)
        ensures
            r == (ActionLimits {
                max_links: 100,
                max_forms: 25,
                max_buttons: 50,
                max_downloads: 50,
                max_fields_per_form: 50,
                max_options_per_field: 50,
            }),
    {
        ActionLimits {
            max_links: 100,
            max_forms: 25,
            max_buttons: 50,
            max_downloads: 50,
            max_fields_per_form: 50,
            max_options_per_field: 50,
        }
    }
}

/// The limits with every cap at `n`.
pub open spec fn uniform_limits(n: usize) -> ActionLimits {
    ActionLimits {
        max_links: n,
        max_forms: n,
        max_buttons: n,
        max_downloads: n,
        max_fields_per_form: n,
        max_options_per_field: n,
    }
}

impl ActionLimits {
    /// Caps every category and every list inside a form at the same number.
    pub fn uniform(n: usize) -> (r: ActionLimits)
        ensures
            r == uniform_limits(n),
    {
        ActionLimits {
            max_links: n,
            max_forms: n,
            max_buttons: n,
            max_downloads: n,
            max_fields_per_form: n,
            max_options_per_field: n,
        }
    }
}

/// The longest text, in characters, that an action shows.
pub const MAX_TEXT_CHARS: usize = 240;

/// The longest URL, in characters, of an action.
pub const MAX_URL_CHARS: usize = 2048;

/// The longest field name, in characters.
pub const MAX_FIELD_NAME_CHARS: usize = 128;

/// The longest field value, in characters.
pub const MAX_FIELD_VALUE_CHARS: usize = 512;

/// The longest file name, in characters, that a download shows.
pub const MAX_FILENAME_CHARS: usize = 240;

// ---------------------------------------------------------------------------------------------
// Models
// ---------------------------------------------------------------------------------------------

/// An action tree, as a mathematical value.
#[verifier::ext_equal]
pub struct TreeModel {
    pub links: Seq<LinkModel>,
    pub forms: Seq<FormModel>,
    pub buttons: Seq<ButtonModel>,
    pub downloads: Seq<DownloadModel>,
}

/// A link, as a mathematical value.
#[verifier::ext_equal]
pub struct LinkModel {
    pub action_id: Seq<char>,
    pub text: Seq<char>,
    pub href: Seq<char>,
}

/// A form, as a mathematical value.
#[verifier::ext_equal]
pub struct FormModel {
    pub action_id: Seq<char>,
    pub method: Seq<char>,
    pub action: Seq<char>,
    pub fields: Seq<FieldModel>,
    pub submit_id: Seq<char>,
}

/// A form control, as a mathematical value.
#[verifier::ext_equal]
pub struct FieldModel {
    pub name: Seq<char>,
    pub kind: Seq<char>,
    pub value: Option<Seq<char>>,
    pub options: Seq<OptionModel>,
    pub required: bool,
}

/// An option, as a mathematical value.
#[verifier::ext_equal]
pub struct OptionModel {
    pub value: Seq<char>,
    pub label: Seq<char>,
    pub selected: bool,
}

/// A button, as a mathematical value.
#[verifier::ext_equal]
pub struct ButtonModel {
    pub action_id: Seq<char>,
    pub text: Seq<char>,
    pub kind: Seq<char>,
}

/// A download, as a mathematical value.
#[verifier::ext_equal]
pub struct DownloadModel {
    pub action_id: Seq<char>,
    pub text: Seq<char>,
    pub href: Seq<char>,
    pub filename: Option<Seq<char>>,
}

impl DeepView for ActionTree {
    type V = TreeModel;

    open spec fn deep_view(&self) -> TreeModel {
        TreeModel {
            links: self.links.deep_view(),
            forms: self.forms.deep_view(),
            buttons: self.buttons.deep_view(),
            downloads: self.downloads.deep_view(),
        }
    }
}

impl DeepView for LinkAction {
    type V = LinkModel;

    open spec fn deep_view(&self) -> LinkModel {
        LinkModel { action_id: self.action_id@, text: self.text@, href: self.href@ }
    }
}

impl DeepView for FormAction {
    type V = FormModel;

    open spec fn deep_view(&self) -> FormModel {
        FormModel {
            action_id: self.action_id@,
            method: self.method@,
            action: self.action@,
            fields: self.fields.deep_view(),
            submit_id: self.submit_id@,
        }
    }
}

impl DeepView for FormField {
    type V = FieldModel;

    open spec fn deep_view(&self) -> FieldModel {
        FieldModel {
            name: self.name@,
            kind: self.kind@,
            value: self.value.deep_view(),
            options: self.options.deep_view(),
            required: self.required,
        }
    }
}

impl DeepView for FormOption {
    type V = OptionModel;

    open spec fn deep_view(&self) -> OptionModel {
        OptionModel { value: self.value@, label: self.label@, selected: self.selected }
    }
}

impl DeepView for ButtonAction {
    type V = ButtonModel;

    open spec fn deep_view(&self) -> ButtonModel {
        ButtonModel { action_id: self.action_id@, text: self.text@, kind: self.kind@ }
    }
}

impl DeepView for DownloadAction {
    type V = DownloadModel;

    open spec fn deep_view(&self) -> DownloadModel {
        DownloadModel {
            action_id: self.action_id@,
            text: self.text@,
            href: self.href@,
            filename: self.filename.deep_view(),
        }
    }
}

impl TreeModel {
    /// The number of actions of all categories.
    pub open spec fn total(self) -> nat {
        self.links.len() + self.forms.len() + self.buttons.len() + self.downloads.len()
    }
}

impl Default for ActionTree {
    fn default() -> (r: ActionTree)
        ensures
            r.deep_view().total() == 0,
    {
        ActionTree {
            links: Vec::new(),
            forms: Vec::new(),
            buttons: Vec::new(),
            downloads: Vec::new(),
        }
    }
}

impl ActionTree {
    /// Whether the page offers nothing to act on.
    pub fn is_empty(&self) -> (r: bool)
        ensures
            r == (self.deep_view().total() == 0),
    {
        self.links.len() == 0 && self.forms.len() == 0 && self.buttons.len() == 0
            && self.downloads.len() == 0
    }

    /// The number of actions of all categories.
    pub fn len(&self) -> (n: usize)
        requires
            self.deep_view().total() <= usize::MAX,
        ensures
            n == self.deep_view().total(),
    {
        self.links.len() + self.forms.len() + self.buttons.len() + self.downloads.len()
    }
}

// ---------------------------------------------------------------------------------------------
// Bounded texts
// ---------------------------------------------------------------------------------------------

/// The text with single spaces, cut down to `max` characters.
pub open spec fn bounded(s: Seq<char>, max: usize) -> Seq<char> {
    text::shortened(text::collapsed(s), max)
}

fn bounded_text(s: &str, max: usize) -> (r: String)
    ensures
        r@ == bounded(s@, max),
{
    text::shorten(text::collapse_str(s).as_str(), max)
}

/// The text, where it has at most `max` characters.
pub open spec fn unless_longer(s: Seq<char>, max: usize) -> Option<Seq<char>> {
    if s.len() <= max {
        Some(s)
    } else {
        None
    }
}

fn exact_bounded(s: &str, max: usize) -> (r: Option<String>)
    ensures
        r.deep_view() == unless_longer(s@, max),
{
    if text::length(s) <= max {
        Some(s.to_string())
    } else {
        None
    }
}

/// The id of the action with number `n` of its category.
pub open spec fn numbered(prefix: Seq<char>, n: nat) -> Seq<char> {
    prefix + text::decimal(n)
}

fn number_id(prefix: &str, n: usize) -> (r: String)
    ensures
        r@ == numbered(prefix@, n as nat),
{
    text::concat(prefix, text::to_decimal(n as u128).as_str())
}

// ---------------------------------------------------------------------------------------------
// Links and downloads
// ---------------------------------------------------------------------------------------------

/// An anchor of the page.
#[derive(Debug)]
pub struct Anchor {
    /// The URL of the web that it leads to, where it leads to one.
    pub href: Option<String>,
    /// The text inside it.
    pub text: String,
    /// Its `download` attribute.
    pub download: Option<String>,
}

/// An anchor, as a mathematical value.
#[verifier::ext_equal]
pub struct AnchorModel {
    pub href: Option<Seq<char>>,
    pub text: Seq<char>,
    pub download: Option<Seq<char>>,
}

impl DeepView for Anchor {
    type V = AnchorModel;

    open spec fn deep_view(&self) -> AnchorModel {
        AnchorModel {
            href: self.href.deep_view(),
            text: self.text@,
            download: self.download.deep_view(),
        }
    }
}

/// The path ends in the extension of a file that is downloaded rather than shown.
pub open spec fn is_file_path(path: Seq<char>) -> bool {
    ||| text::ends(path, ".pdf"@)
    ||| text::ends(path, ".zip"@)
    ||| text::ends(path, ".tar"@)
    ||| text::ends(path, ".gz"@)
    ||| text::ends(path, ".tgz"@)
    ||| text::ends(path, ".rar"@)
    ||| text::ends(path, ".7z"@)
    ||| text::ends(path, ".csv"@)
    ||| text::ends(path, ".tsv"@)
    ||| text::ends(path, ".xlsx"@)
    ||| text::ends(path, ".xls"@)
    ||| text::ends(path, ".doc"@)
    ||| text::ends(path, ".docx"@)
    ||| text::ends(path, ".ppt"@)
    ||| text::ends(path, ".pptx"@)
    ||| text::ends(path, ".odt"@)
    ||| text::ends(path, ".ods"@)
    ||| text::ends(path, ".dmg"@)
    ||| text::ends(path, ".exe"@)
    ||| text::ends(path, ".msi"@)
    ||| text::ends(path, ".deb"@)
    ||| text::ends(path, ".rpm"@)
    ||| text::ends(path, ".apk"@)
    ||| text::ends(path, ".iso"@)
    ||| text::ends(path, ".mp3"@)
    ||| text::ends(path, ".mp4"@)
    ||| text::ends(path, ".wav"@)
    ||| text::ends(path, ".mov"@)
}

fn has_file_extension(path: &[char]) -> (r: bool)
    ensures
        r == is_file_path(path@),
{
    text::ends_with(path, ".pdf")
        || text::ends_with(path, ".zip")
        || text::ends_with(path, ".tar")
        || text::ends_with(path, ".gz")
        || text::ends_with(path, ".tgz")
        || text::ends_with(path, ".rar")
        || text::ends_with(path, ".7z")
        || text::ends_with(path, ".csv")
        || text::ends_with(path, ".tsv")
        || text::ends_with(path, ".xlsx")
        || text::ends_with(path, ".xls")
        || text::ends_with(path, ".doc")
        || text::ends_with(path, ".docx")
        || text::ends_with(path, ".ppt")
        || text::ends_with(path, ".pptx")
        || text::ends_with(path, ".odt")
        || text::ends_with(path, ".ods")
        || text::ends_with(path, ".dmg")
        || text::ends_with(path, ".exe")
        || text::ends_with(path, ".msi")
        || text::ends_with(path, ".deb")
        || text::ends_with(path, ".rpm")
        || text::ends_with(path, ".apk")
        || text::ends_with(path, ".iso")
        || text::ends_with(path, ".mp3")
        || text::ends_with(path, ".mp4")
        || text::ends_with(path, ".wav")
        || text::ends_with(path, ".mov")
}

/// The last segment of the path of a URL; empty where the path ends in a slash.
pub open spec fn last_segment(href: Seq<char>) -> Seq<char> {
    text::after_last(text::before_either(href, '?', '#'), '/')
}

/// The file name of a download, empty where it has none; nothing for a link that is no
/// download. A `download` attribute makes one, and so does a known file extension.
pub open spec fn download_name(download: Option<Seq<char>>, href: Seq<char>) -> Option<Seq<char>> {
    match download {
        Some(name) => Some(
            if text::trimmed(name).len() == 0 {
                last_segment(href)
            } else {
                text::trimmed(name)
            },
        ),
        None => if is_file_path(text::lowered(text::before_either(href, '?', '#'))) {
            Some(last_segment(href))
        } else {
            None
        },
    }
}

fn download_filename(download: &Option<String>, href: &str) -> (r: Option<String>)
    ensures
        r.deep_view() == download_name(download.deep_view(), href@),
{
    let chars = text::to_chars(href);
    let path = text::cut_before(chars.as_slice(), '?', '#');
    match download {
        Some(name) => {
            let name = text::trim_str(name.as_str());
            if name.as_str().is_empty() {
                Some(text::from_chars(text::cut_after_last(path, '/')))
            } else {
                Some(name)
            }
        },
        None => if has_file_extension(text::to_lower(path).as_slice()) {
            Some(text::from_chars(text::cut_after_last(path, '/')))
        } else {
            None
        },
    }
}

/// The anchor is an ordinary link.
pub open spec fn is_link(a: AnchorModel) -> bool {
    a.href matches Some(href) && download_name(a.download, href) is None
}

/// The anchor is a download.
pub open spec fn is_download(a: AnchorModel) -> bool {
    a.href matches Some(href) && download_name(a.download, href) is Some
}

/// The first `max` links among the anchors.
pub open spec fn links_of(anchors: Seq<AnchorModel>, max: usize) -> Seq<LinkModel>
    decreases anchors.len(),
{
    if anchors.len() == 0 {
        seq![]
    } else {
        let before = links_of(anchors.drop_last(), max);
        let a = anchors.last();
        if is_link(a) && before.len() < max {
            before.push(
                LinkModel {
                    action_id: numbered("link_"@, before.len()),
                    text: bounded(a.text, MAX_TEXT_CHARS),
                    href: a.href->0,
                },
            )
        } else {
            before
        }
    }
}

/// The first `max` downloads among the anchors.
pub open spec fn downloads_of(anchors: Seq<AnchorModel>, max: usize) -> Seq<DownloadModel>
    decreases anchors.len(),
{
    if anchors.len() == 0 {
        seq![]
    } else {
        let before = downloads_of(anchors.drop_last(), max);
        let a = anchors.last();
        if is_download(a) && before.len() < max {
            let name = download_name(a.download, a.href->0)->0;
            before.push(
                DownloadModel {
                    action_id: numbered("download_"@, before.len()),
                    text: bounded(a.text, MAX_TEXT_CHARS),
                    href: a.href->0,
                    filename: if name.len() == 0 {
                        None
                    } else {
                        Some(text::shortened(name, MAX_FILENAME_CHARS))
                    },
                },
            )
        } else {
            before
        }
    }
}

/// Splits the anchors into links and downloads, each up to its limit.
pub fn link_and_download_actions(anchors: &Vec<Anchor>, limits: &ActionLimits) -> (r: (
    Vec<LinkAction>,
    Vec<DownloadAction>,
))
    ensures
        r.0.deep_view() == links_of(anchors.deep_view(), limits.max_links),
        r.1.deep_view() == downloads_of(anchors.deep_view(), limits.max_downloads),
{
    let mut links: Vec<LinkAction> = Vec::new();
    let mut downloads: Vec<DownloadAction> = Vec::new();
    let ghost all = anchors.deep_view();
    assert(links.deep_view() =~= links_of(all.take(0), limits.max_links));
    assert(downloads.deep_view() =~= downloads_of(all.take(0), limits.max_downloads));
    for i in 0..anchors.len()
        invariant
            all == anchors.deep_view(),
            links.deep_view() == links_of(all.take(i as int), limits.max_links),
            downloads.deep_view() == downloads_of(all.take(i as int), limits.max_downloads),
    {
        let a = &anchors[i];
        proof {
            assert(all.take(i + 1).drop_last() =~= all.take(i as int));
            assert(all.take(i + 1).last() == a.deep_view());
        }
        let ghost links_before = links.deep_view();
        let ghost downloads_before = downloads.deep_view();
        if let Some(href) = &a.href {
            let shown = bounded_text(a.text.as_str(), MAX_TEXT_CHARS);
            match download_filename(&a.download, href.as_str()) {
                Some(name) => {
                    if downloads.len() < limits.max_downloads {
                        let filename = if name.as_str().is_empty() {
                            None
                        } else {
                            Some(text::shorten(name.as_str(), MAX_FILENAME_CHARS))
                        };
                        let d = DownloadAction {
                            action_id: number_id("download_", downloads.len()),
                            text: shown,
                            href: href.clone(),
                            filename,
                        };
                        downloads.push(d);
                        assert(downloads.deep_view() =~= downloads_before.push(d.deep_view()));
                    }
                },
                None => {
                    if links.len() < limits.max_links {
                        let l = LinkAction {
                            action_id: number_id("link_", links.len()),
                            text: shown,
                            href: href.clone(),
                        };
                        links.push(l);
                        assert(links.deep_view() =~= links_before.push(l.deep_view()));
                    }
                },
            }
        }
    }
    assert(all.take(all.len() as int) =~= all);
    (links, downloads)
}

// ---------------------------------------------------------------------------------------------
// Forms
// ---------------------------------------------------------------------------------------------

/// An `option` element.
#[derive(Debug)]
pub struct Choice {
    pub text: String,
    pub value: Option<String>,
    pub selected: bool,
}

/// An `input`, `select` or `textarea` element.
#[derive(Debug)]
pub struct Control {
    /// The tag name.
    pub tag: String,
    /// The attributes `type`, `name` and `value`.
    pub kind: Option<String>,
    pub name: Option<String>,
    pub value: Option<String>,
    /// It has the attribute `required`.
    pub required: bool,
    /// The options in it.
    pub choices: Vec<Choice>,
}

/// A `form` element.
#[derive(Debug)]
pub struct Form {
    /// The attribute `method`.
    pub method: Option<String>,
    /// The URL of the web that it submits to, where there is one.
    pub target: Option<String>,
    pub controls: Vec<Control>,
}

/// An `option` element, as a mathematical value.
#[verifier::ext_equal]
pub struct ChoiceModel {
    pub text: Seq<char>,
    pub value: Option<Seq<char>>,
    pub selected: bool,
}

/// A form control as it stands in the page, as a mathematical value.
#[verifier::ext_equal]
pub struct ControlModel {
    pub tag: Seq<char>,
    pub kind: Option<Seq<char>>,
    pub name: Option<Seq<char>>,
    pub value: Option<Seq<char>>,
    pub required: bool,
    pub choices: Seq<ChoiceModel>,
}

/// A form as it stands in the page, as a mathematical value.
#[verifier::ext_equal]
pub struct RawFormModel {
    pub method: Option<Seq<char>>,
    pub target: Option<Seq<char>>,
    pub controls: Seq<ControlModel>,
}

impl DeepView for Choice {
    type V = ChoiceModel;

    open spec fn deep_view(&self) -> ChoiceModel {
        ChoiceModel {
            text: self.text@,
            value: self.value.deep_view(),
            selected: self.selected,
        }
    }
}

impl DeepView for Control {
    type V = ControlModel;

    open spec fn deep_view(&self) -> ControlModel {
        ControlModel {
            tag: self.tag@,
            kind: self.kind.deep_view(),
            name: self.name.deep_view(),
            value: self.value.deep_view(),
            required: self.required,
            choices: self.choices.deep_view(),
        }
    }
}

impl DeepView for Form {
    type V = RawFormModel;

    open spec fn deep_view(&self) -> RawFormModel {
        RawFormModel {
            method: self.method.deep_view(),
            target: self.target.deep_view(),
            controls: self.controls.deep_view(),
        }
    }
}

/// What a submit sends for a chosen option: its `value`, or its label where it has none;
/// nothing where the value is too long.
pub open spec fn choice_value(c: ChoiceModel) -> Option<Seq<char>> {
    match c.value {
        Some(v) => unless_longer(v, MAX_FIELD_VALUE_CHARS),
        None => Some(bounded(c.text, MAX_TEXT_CHARS)),
    }
}

/// The option for an `option` element; nothing for one that is empty or has too long a value.
pub open spec fn option_of(c: ChoiceModel) -> Option<OptionModel> {
    let label = bounded(c.text, MAX_TEXT_CHARS);
    match choice_value(c) {
        Some(value) => if label.len() > 0 || value.len() > 0 {
            Some(OptionModel { value, label, selected: c.selected })
        } else {
            None
        },
        None => None,
    }
}

/// The options for a list of `option` elements.
pub open spec fn options_of(choices: Seq<ChoiceModel>) -> Seq<OptionModel>
    decreases choices.len(),
{
    if choices.len() == 0 {
        seq![]
    } else {
        let before = options_of(choices.drop_last());
        match option_of(choices.last()) {
            Some(o) => before.push(o),
            None => before,
        }
    }
}

fn form_option(c: &Choice) -> (r: Option<FormOption>)
    ensures
        r.deep_view() == option_of(c.deep_view()),
{
    let label = bounded_text(c.text.as_str(), MAX_TEXT_CHARS);
    let value = match &c.value {
        Some(v) => exact_bounded(v.as_str(), MAX_FIELD_VALUE_CHARS),
        None => Some(label.clone()),
    };
    match value {
        Some(value) => if !label.as_str().is_empty() || !value.as_str().is_empty() {
            Some(FormOption { value, label, selected: c.selected })
        } else {
            None
        },
        None => None,
    }
}

fn form_options(choices: &Vec<Choice>, max: usize) -> (r: Vec<FormOption>)
    ensures
        r.deep_view() == options_of(first(choices.deep_view(), max)),
{
    let mut out: Vec<FormOption> = Vec::new();
    let ghost all = choices.deep_view();
    let n: usize = if choices.len() < max {
        choices.len()
    } else {
        max
    };
    assert(out.deep_view() =~= options_of(all.take(0)));
    for i in 0..n
        invariant
            n <= choices@.len(),
            all == choices.deep_view(),
            out.deep_view() == options_of(all.take(i as int)),
    {
        proof {
            assert(all.take(i + 1).drop_last() =~= all.take(i as int));
            assert(all.take(i + 1).last() == choices@[i as int].deep_view());
        }
        if let Some(o) = form_option(&choices[i]) {
            let ghost before = out.deep_view();
            out.push(o);
            assert(out.deep_view() =~= before.push(o.deep_view()));
        }
    }
    assert(all.take(n as int) =~= first(all, max));
    out
}

/// The first `max` items, or all where there are fewer.
pub open spec fn first<T>(s: Seq<T>, max: usize) -> Seq<T> {
    if s.len() <= max {
        s
    } else {
        s.take(max as int)
    }
}

/// What kind of field a control is.
pub open spec fn field_kind(c: ControlModel) -> Seq<char> {
    if c.tag == "select"@ {
        "select"@
    } else if c.tag == "textarea"@ {
        "textarea"@
    } else {
        text::lowered(
            match c.kind {
                Some(kind) => kind,
                None => "text"@,
            },
        )
    }
}

/// A control of that kind is an action and holds no data.
pub open spec fn is_action_kind(kind: Seq<char>) -> bool {
    kind == "submit"@ || kind == "reset"@ || kind == "button"@ || kind == "image"@
}

/// The name under which a control's data is sent.
pub open spec fn field_name(c: ControlModel) -> Option<Seq<char>> {
    match c.name {
        Some(name) => if text::trimmed(name).len() == 0 {
            None
        } else {
            unless_longer(text::trimmed(name), MAX_FIELD_NAME_CHARS)
        },
        None => None,
    }
}

/// The value that a control starts with; an empty or an overlong one counts as none.
pub open spec fn field_value(c: ControlModel) -> Option<Seq<char>> {
    match c.value {
        Some(v) => if v.len() == 0 {
            None
        } else {
            unless_longer(v, MAX_FIELD_VALUE_CHARS)
        },
        None => None,
    }
}

/// The field for a control; nothing for one that holds no data or has no usable name.
pub open spec fn field_of(c: ControlModel, max_options: usize) -> Option<FieldModel> {
    if is_action_kind(field_kind(c)) || field_name(c) is None {
        None
    } else {
        Some(
            FieldModel {
                name: field_name(c)->0,
                kind: field_kind(c),
                value: field_value(c),
                options: if c.tag == "select"@ {
                    options_of(first(c.choices, max_options))
                } else {
                    seq![]
                },
                required: c.required,
            },
        )
    }
}

/// The first fields among the controls, up to the limit.
pub open spec fn fields_of(controls: Seq<ControlModel>, limits: ActionLimits) -> Seq<FieldModel>
    decreases controls.len(),
{
    if controls.len() == 0 {
        seq![]
    } else {
        let before = fields_of(controls.drop_last(), limits);
        match field_of(controls.last(), limits.max_options_per_field) {
            Some(f) => if before.len() < limits.max_fields_per_form {
                before.push(f)
            } else {
                before
            },
            None => before,
        }
    }
}

fn form_field(c: &Control, max_options: usize) -> (r: Option<FormField>)
    ensures
        r.deep_view() == field_of(c.deep_view(), max_options),
{
    let kind = if text::same(c.tag.as_str(), "select") {
        "select".to_string()
    } else if text::same(c.tag.as_str(), "textarea") {
        "textarea".to_string()
    } else {
        match &c.kind {
            Some(kind) => text::lower_str(kind.as_str()),
            None => text::lower_str("text"),
        }
    };
    if text::same(kind.as_str(), "submit") || text::same(kind.as_str(), "reset")
        || text::same(kind.as_str(), "button") || text::same(kind.as_str(), "image") {
        return None;
    }
    let name = match &c.name {
        Some(name) => {
            let name = text::trim_str(name.as_str());
            if name.as_str().is_empty() {
                None
            } else {
                exact_bounded(name.as_str(), MAX_FIELD_NAME_CHARS)
            }
        },
        None => None,
    };
    let value = match &c.value {
        Some(v) => if v.as_str().is_empty() {
            None
        } else {
            exact_bounded(v.as_str(), MAX_FIELD_VALUE_CHARS)
        },
        None => None,
    };
    match name {
        Some(name) => {
            let options = if text::same(c.tag.as_str(), "select") {
                form_options(&c.choices, max_options)
            } else {
                Vec::new()
            };
            let field = FormField { name, kind, value, options, required: c.required };
            assert(field.deep_view() =~= field_of(c.deep_view(), max_options)->0);
            Some(field)
        },
        None => None,
    }
}

/// Turns the controls of a form into its fields.
pub fn form_fields(controls: &Vec<Control>, limits: &ActionLimits) -> (r: Vec<FormField>)
    ensures
        r.deep_view() == fields_of(controls.deep_view(), *limits),
{
    let mut out: Vec<FormField> = Vec::new();
    let ghost all = controls.deep_view();
    assert(out.deep_view() =~= fields_of(all.take(0), *limits));
    for i in 0..controls.len()
        invariant
            all == controls.deep_view(),
            out.deep_view() == fields_of(all.take(i as int), *limits),
    {
        proof {
            assert(all.take(i + 1).drop_last() =~= all.take(i as int));
            assert(all.take(i + 1).last() == controls@[i as int].deep_view());
        }
        if out.len() < limits.max_fields_per_form {
            if let Some(f) = form_field(&controls[i], limits.max_options_per_field) {
                let ghost before = out.deep_view();
                out.push(f);
                assert(out.deep_view() =~= before.push(f.deep_view()));
            }
        }
    }
    assert(all.take(all.len() as int) =~= all);
    out
}

/// The method of a form: `POST` where it says so, `GET` otherwise.
pub open spec fn form_method(method: Option<Seq<char>>) -> Seq<char> {
    if method matches Some(m) && text::uppered(text::trimmed(m)) == "POST"@ {
        "POST"@
    } else {
        "GET"@
    }
}

/// The first forms, up to the limit, among those that submit to the web.
pub open spec fn forms_of(forms: Seq<RawFormModel>, limits: ActionLimits) -> Seq<FormModel>
    decreases forms.len(),
{
    if forms.len() == 0 {
        seq![]
    } else {
        let before = forms_of(forms.drop_last(), limits);
        let f = forms.last();
        if f.target is Some && before.len() < limits.max_forms {
            let id = numbered("form_"@, before.len());
            before.push(
                FormModel {
                    action_id: id,
                    method: form_method(f.method),
                    action: f.target->0,
                    fields: fields_of(f.controls, limits),
                    submit_id: id + ".submit"@,
                },
            )
        } else {
            before
        }
    }
}

/// Turns the forms of a page into form actions.
pub fn form_actions(forms: &Vec<Form>, limits: &ActionLimits) -> (r: Vec<FormAction>)
    ensures
        r.deep_view() == forms_of(forms.deep_view(), *limits),
{
    let mut out: Vec<FormAction> = Vec::new();
    let ghost all = forms.deep_view();
    assert(out.deep_view() =~= forms_of(all.take(0), *limits));
    for i in 0..forms.len()
        invariant
            all == forms.deep_view(),
            out.deep_view() == forms_of(all.take(i as int), *limits),
    {
        let f = &forms[i];
        proof {
            assert(all.take(i + 1).drop_last() =~= all.take(i as int));
            assert(all.take(i + 1).last() == f.deep_view());
        }
        if let Some(target) = &f.target {
            if out.len() < limits.max_forms {
                let id = number_id("form_", out.len());
                let action = FormAction {
                    submit_id: text::concat(id.as_str(), ".submit"),
                    action_id: id,
                    method: read_method(&f.method),
                    action: target.clone(),
                    fields: form_fields(&f.controls, limits),
                };
                let ghost before = out.deep_view();
                out.push(action);
                assert(out.deep_view() =~= before.push(action.deep_view()));
            }
        }
    }
    assert(all.take(all.len() as int) =~= all);
    out
}

fn read_method(method: &Option<String>) -> (r: String)
    ensures
        r@ == form_method(method.deep_view()),
{
    if let Some(m) = method {
        let chars = text::to_chars(m.as_str());
        let upper = text::from_chars(text::upper_chars(text::trim(chars.as_slice())).as_slice());
        if text::same(upper.as_str(), "POST") {
            return "POST".to_string();
        }
    }
    "GET".to_string()
}

// ---------------------------------------------------------------------------------------------
// Buttons
// ---------------------------------------------------------------------------------------------

/// A button of the page.
#[derive(Debug)]
pub struct RawButton {
    /// The tag name.
    pub tag: String,
    /// The attributes `type` and `value`.
    pub kind: Option<String>,
    pub value: Option<String>,
    /// The text inside the element.
    pub text: String,
    /// The tag names of what the element stands in.
    pub ancestors: Vec<Option<String>>,
}

/// A button of the page, as a mathematical value.
#[verifier::ext_equal]
pub struct RawButtonModel {
    pub tag: Seq<char>,
    pub kind: Option<Seq<char>>,
    pub value: Option<Seq<char>>,
    pub text: Seq<char>,
    pub ancestors: Seq<Option<Seq<char>>>,
}

impl DeepView for RawButton {
    type V = RawButtonModel;

    open spec fn deep_view(&self) -> RawButtonModel {
        RawButtonModel {
            tag: self.tag@,
            kind: self.kind.deep_view(),
            value: self.value.deep_view(),
            text: self.text@,
            ancestors: self.ancestors.deep_view(),
        }
    }
}

/// One of the ancestors is a form.
pub open spec fn inside_form(ancestors: Seq<Option<Seq<char>>>) -> bool {
    exists|i: int|
        0 <= i < ancestors.len() && (#[trigger] ancestors[i] matches Some(name)
            && text::same_letters(name, "form"@))
}

fn within_form(ancestors: &Vec<Option<String>>) -> (r: bool)
    ensures
        r == inside_form(ancestors.deep_view()),
{
    let ghost all = ancestors.deep_view();
    for i in 0..ancestors.len()
        invariant
            all == ancestors.deep_view(),
            forall|j: int|
                0 <= j < i ==> !(#[trigger] all[j] matches Some(name) && text::same_letters(
                    name,
                    "form"@,
                )),
    {
        assert(all[i as int] == ancestors@[i as int].deep_view());
        if let Some(name) = &ancestors[i] {
            if text::eq_ignore_case(name.as_str(), "form") {
                return true;
            }
        }
    }
    false
}

/// The caption of a button: the value of an `input`, the text of another element.
pub open spec fn caption(b: RawButtonModel) -> Seq<char> {
    if b.tag == "input"@ {
        match b.value {
            Some(v) => v,
            None => seq![],
        }
    } else {
        b.text
    }
}

/// The kind of a button with that `type` attribute: one of the three that there are, and a plain
/// button for any other type.
pub open spec fn button_kind(kind: Option<Seq<char>>) -> Seq<char> {
    match kind {
        Some(k) => if text::lowered(k) == "submit"@ {
            "submit"@
        } else if text::lowered(k) == "reset"@ {
            "reset"@
        } else {
            "button"@
        },
        None => "button"@,
    }
}

fn pick_kind(kind: &Option<String>) -> (r: &'static str)
    ensures
        r@ == button_kind(kind.deep_view()),
{
    match kind {
        Some(k) => {
            let lower = text::lower_str(k.as_str());
            if text::same(lower.as_str(), "submit") {
                "submit"
            } else if text::same(lower.as_str(), "reset") {
                "reset"
            } else {
                "button"
            }
        },
        None => "button",
    }
}

/// The first `max` buttons that stand in no form.
pub open spec fn buttons_of(buttons: Seq<RawButtonModel>, max: usize) -> Seq<ButtonModel>
    decreases buttons.len(),
{
    if buttons.len() == 0 {
        seq![]
    } else {
        let before = buttons_of(buttons.drop_last(), max);
        let b = buttons.last();
        if before.len() < max && !inside_form(b.ancestors) {
            before.push(
                ButtonModel {
                    action_id: numbered("button_"@, before.len()),
                    text: bounded(caption(b), MAX_TEXT_CHARS),
                    kind: button_kind(b.kind),
                },
            )
        } else {
            before
        }
    }
}

/// Turns the buttons of a page into button actions. A button inside a form belongs to that form.
pub fn button_actions(buttons: &Vec<RawButton>, max: usize) -> (r: Vec<ButtonAction>)
    ensures
        r.deep_view() == buttons_of(buttons.deep_view(), max),
{
    let mut out: Vec<ButtonAction> = Vec::new();
    let ghost all = buttons.deep_view();
    assert(out.deep_view() =~= buttons_of(all.take(0), max));
    for i in 0..buttons.len()
        invariant
            all == buttons.deep_view(),
            out.deep_view() == buttons_of(all.take(i as int), max),
    {
        let b = &buttons[i];
        proof {
            assert(all.take(i + 1).drop_last() =~= all.take(i as int));
            assert(all.take(i + 1).last() == b.deep_view());
        }
        if out.len() < max && !within_form(&b.ancestors) {
            let kind = pick_kind(&b.kind).to_string();
            let shown = if text::same(b.tag.as_str(), "input") {
                match &b.value {
                    Some(v) => bounded_text(v.as_str(), MAX_TEXT_CHARS),
                    None => bounded_text(String::new().as_str(), MAX_TEXT_CHARS),
                }
            } else {
                bounded_text(b.text.as_str(), MAX_TEXT_CHARS)
            };
            let action = ButtonAction {
                action_id: number_id("button_", out.len()),
                text: shown,
                kind,
            };
            let ghost before = out.deep_view();
            out.push(action);
            assert(out.deep_view() =~= before.push(action.deep_view()));
        }
    }
    assert(all.take(all.len() as int) =~= all);
    out
}

// ---------------------------------------------------------------------------------------------
// URLs
// ---------------------------------------------------------------------------------------------

/// The URL, where it is one of the web and not too long.
pub open spec fn usable(href: Option<Seq<char>>) -> Option<Seq<char>> {
    match href {
        Some(h) => if weburl::is_web(h) {
            unless_longer(h, MAX_URL_CHARS)
        } else {
            None
        },
        None => None,
    }
}

/// The URL of the web that a link leads to; nothing for an empty reference or an anchor within
/// the page.
pub open spec fn link_target(base: Option<Seq<char>>, raw: Seq<char>) -> Option<Seq<char>> {
    let r = text::trimmed(raw);
    if r.len() == 0 || r[0] == '#' {
        None
    } else {
        usable(weburl::absolute(base, r))
    }
}

/// The URL of the web that a form submits to; the page itself where its action is empty.
pub open spec fn form_target(base: Option<Seq<char>>, raw: Seq<char>) -> Option<Seq<char>> {
    let r = text::trimmed(raw);
    if r.len() == 0 {
        usable(base)
    } else {
        usable(weburl::absolute(base, r))
    }
}

/// The URL against which the references of a page are resolved: that of its first `base`
/// element, where this is a URL of the web, or else that of the page itself. `href` is the
/// attribute of that element.
pub open spec fn base_of(base_url: Seq<char>, href: Option<Seq<char>>) -> Option<Seq<char>> {
    match weburl::parsed(base_url) {
        Ok(page) => match href {
            Some(raw) => match weburl::joined(page.href, text::trimmed(raw)) {
                Ok(b) => if weburl::is_web(b) {
                    Some(b)
                } else {
                    Some(page.href)
                },
                Err(_) => Some(page.href),
            },
            None => Some(page.href),
        },
        Err(_) => None,
    }
}

fn keep_usable(href: Option<String>) -> (r: Option<String>)
    ensures
        r.deep_view() == usable(href.deep_view()),
{
    match href {
        Some(h) => if weburl::is_web_url(h.as_str()) {
            exact_bounded(h.as_str(), MAX_URL_CHARS)
        } else {
            None
        },
        None => None,
    }
}

/// The URL of the web that a link with the reference `raw` leads to.
pub fn resolve_http(base: &Option<String>, raw: &str) -> (r: Option<String>)
    ensures
        r.deep_view() == link_target(base.deep_view(), raw@),
{
    let chars = text::to_chars(raw);
    let trimmed = text::trim(chars.as_slice());
    if trimmed.len() == 0 || trimmed[0] == '#' {
        return None;
    }
    keep_usable(weburl::make_absolute(base, text::from_chars(trimmed).as_str()))
}

/// The URL of the web that a form with the action `raw` submits to.
pub fn resolve_form_action(base: &Option<String>, raw: &str) -> (r: Option<String>)
    ensures
        r.deep_view() == form_target(base.deep_view(), raw@),
{
    let chars = text::to_chars(raw);
    let trimmed = text::trim(chars.as_slice());
    if trimmed.len() == 0 {
        return keep_usable(text::copy_opt(base));
    }
    keep_usable(weburl::make_absolute(base, text::from_chars(trimmed).as_str()))
}

/// The URL against which the references of a page are resolved.
pub fn document_base(base_url: &str, href: &Option<String>) -> (r: Option<String>)
    ensures
        r.deep_view() == base_of(base_url@, href.deep_view()),
{
    match weburl::parse_url(base_url) {
        Ok(page) => {
            if let Some(raw) = href {
                if let Ok(b) = weburl::join_url(
                    page.href.as_str(),
                    text::trim_str(raw.as_str()).as_str(),
                ) {
                    if weburl::is_web_url(b.as_str()) {
                        return Some(b);
                    }
                }
            }
            Some(page.href)
        },
        Err(_) => None,
    }
}

// ---------------------------------------------------------------------------------------------
// The whole page
// ---------------------------------------------------------------------------------------------

/// The attribute `href` of the first `base` element that has one.
pub open spec fn base_href(html: Seq<char>) -> Option<Seq<char>> {
    let found = dom::selected(html, "base[href]"@, seq!["href"@]);
    first_attr(found)
}

/// The first value of the first attribute among the elements.
pub open spec fn first_attr(elements: Seq<PlacedModel>) -> Option<Seq<char>>
    decreases elements.len(),
{
    if elements.len() == 0 {
        None
    } else if dom::attr(elements[0].element, 0) is Some {
        dom::attr(elements[0].element, 0)
    } else {
        first_attr(elements.drop_first())
    }
}

/// The text, or the empty one where there is none.
pub open spec fn or_empty(o: Option<Seq<char>>) -> Seq<char> {
    match o {
        Some(s) => s,
        None => seq![],
    }
}

/// The anchor for an element with the attributes `href` and `download`.
pub open spec fn anchor_of(e: ElementModel, base: Option<Seq<char>>) -> AnchorModel {
    AnchorModel {
        href: link_target(base, or_empty(dom::attr(e, 0))),
        text: e.text,
        download: dom::attr(e, 1),
    }
}

/// The choice for an `option` element. The attributes of form elements are `method`, `action`,
/// `type`, `name`, `value`, `required` and `selected`, in that order.
pub open spec fn choice_of(e: ElementModel) -> ChoiceModel {
    ChoiceModel { text: e.text, value: dom::attr(e, 4), selected: dom::attr(e, 6) is Some }
}

/// The control for an element with the elements in it.
pub open spec fn control_of(b: BranchModel) -> ControlModel {
    ControlModel {
        tag: b.element.name,
        kind: dom::attr(b.element, 2),
        name: dom::attr(b.element, 3),
        value: dom::attr(b.element, 4),
        required: dom::attr(b.element, 5) is Some,
        choices: Seq::new(b.inner.len(), |i: int| choice_of(b.inner[i])),
    }
}

/// The form for an element with the elements in it.
pub open spec fn raw_form_of(f: BushModel, base: Option<Seq<char>>) -> RawFormModel {
    RawFormModel {
        method: dom::attr(f.element, 0),
        target: form_target(base, or_empty(dom::attr(f.element, 1))),
        controls: Seq::new(f.branches.len(), |i: int| control_of(f.branches[i])),
    }
}

/// The button for an element with the attributes `type` and `value`.
pub open spec fn raw_button_of(p: PlacedModel) -> RawButtonModel {
    RawButtonModel {
        tag: p.element.name,
        kind: dom::attr(p.element, 0),
        value: dom::attr(p.element, 1),
        text: p.element.text,
        ancestors: p.ancestors,
    }
}

/// The anchors of a page.
pub open spec fn page_anchors(html: Seq<char>, base: Option<Seq<char>>) -> Seq<AnchorModel> {
    let found = dom::selected(html, "a[href]"@, seq!["href"@, "download"@]);
    Seq::new(found.len(), |i: int| anchor_of(found[i].element, base))
}

/// The forms of a page.
pub open spec fn page_forms(html: Seq<char>, base: Option<Seq<char>>) -> Seq<RawFormModel> {
    let found = dom::selected_nested(
        html,
        "form"@,
        "input, select, textarea"@,
        "option"@,
        seq!["method"@, "action"@, "type"@, "name"@, "value"@, "required"@, "selected"@],
    );
    Seq::new(found.len(), |i: int| raw_form_of(found[i], base))
}

/// The buttons of a page.
pub open spec fn page_buttons(html: Seq<char>) -> Seq<RawButtonModel> {
    let found = dom::selected(
        html,
        "button, input[type=button], input[type=submit], input[type=reset]"@,
        seq!["type"@, "value"@],
    );
    Seq::new(found.len(), |i: int| raw_button_of(found[i]))
}

/// The action tree of a page.
pub open spec fn tree_of(html: Seq<char>, base_url: Seq<char>, limits: ActionLimits) -> TreeModel {
    let base = base_of(base_url, base_href(html));
    TreeModel {
        links: links_of(page_anchors(html, base), limits.max_links),
        forms: forms_of(page_forms(html, base), limits),
        buttons: buttons_of(page_buttons(html), limits.max_buttons),
        downloads: downloads_of(page_anchors(html, base), limits.max_downloads),
    }
}

/// Extracts the action tree from a full HTML page. References are resolved against the page's
/// base, and each category is capped by `limits`.
pub fn extract_actions(html: &str, base_url: &str, limits: ActionLimits) -> (r: ActionTree)
    requires
        error::parseable(html@),
    ensures
        r.deep_view() == tree_of(html@, base_url@, limits),
{
    let href = read_base_href(html);
    let base = document_base(base_url, &href);
    let anchors = read_anchors(html, &base);
    let (links, downloads) = link_and_download_actions(&anchors, &limits);
    let forms = read_forms(html, &base);
    let buttons = read_buttons(html);
    ActionTree {
        links,
        forms: form_actions(&forms, &limits),
        buttons: button_actions(&buttons, limits.max_buttons),
        downloads,
    }
}

fn read_base_href(html: &str) -> (r: Option<String>)
    requires
        error::parseable(html@),
    ensures
        r.deep_view() == base_href(html@),
{
    let attrs: Vec<&'static str> = vec!["href"];
    assert(attrs.deep_view() =~= seq!["href"@]);
    proof {
        reveal_strlit("base[href]");
    }
    let found = dom::select(html, "base[href]", &attrs);
    let ghost all = found.deep_view();
    assert(all.skip(0) =~= all);
    for i in 0..found.len()
        invariant
            all == found.deep_view(),
            base_href(html@) == first_attr(all),
            first_attr(all.skip(i as int)) == first_attr(all),
    {
        assert(all.skip(i as int)[0] == found@[i as int].deep_view());
        assert(all.skip(i as int).drop_first() =~= all.skip(i + 1));
        let a = dom::get_attr(&found[i].element, 0);
        if a.is_some() {
            return a;
        }
    }
    assert(all.skip(all.len() as int).len() == 0);
    None
}

fn attr_or_empty(e: &Element, i: usize) -> (r: String)
    ensures
        r@ == or_empty(dom::attr(e.deep_view(), i as int)),
{
    match dom::get_attr(e, i) {
        Some(s) => s,
        None => String::new(),
    }
}

fn read_anchors(html: &str, base: &Option<String>) -> (r: Vec<Anchor>)
    requires
        error::parseable(html@),
    ensures
        r.deep_view() == page_anchors(html@, base.deep_view()),
{
    let attrs: Vec<&'static str> = vec!["href", "download"];
    assert(attrs.deep_view() =~= seq!["href"@, "download"@]);
    proof {
        reveal_strlit("a[href]");
    }
    let found = dom::select(html, "a[href]", &attrs);
    let ghost all = found.deep_view();
    let mut out: Vec<Anchor> = Vec::new();
    for i in 0..found.len()
        invariant
            all == found.deep_view(),
            out@.len() == i,
            forall|j: int| 0 <= j < i ==> out.deep_view()[j] == anchor_of(
                all[j].element,
                base.deep_view(),
            ),
    {
        let e = &found[i].element;
        assert(all[i as int].element == e.deep_view());
        let a = Anchor {
            href: resolve_http(base, attr_or_empty(e, 0).as_str()),
            text: e.text.clone(),
            download: dom::get_attr(e, 1),
        };
        let ghost before = out.deep_view();
        out.push(a);
        assert(out.deep_view() =~= before.push(a.deep_view()));
    }
    assert(out.deep_view() =~= page_anchors(html@, base.deep_view()));
    out
}

fn read_choices(found: &Vec<Element>) -> (r: Vec<Choice>)
    ensures
        r.deep_view() == Seq::new(
            found.deep_view().len(),
            |i: int| choice_of(found.deep_view()[i]),
        ),
{
    let ghost all = found.deep_view();
    let mut out: Vec<Choice> = Vec::new();
    for i in 0..found.len()
        invariant
            all == found.deep_view(),
            out@.len() == i,
            forall|j: int| 0 <= j < i ==> out.deep_view()[j] == choice_of(all[j]),
    {
        let e = &found[i];
        assert(all[i as int] == e.deep_view());
        let c = Choice {
            text: e.text.clone(),
            value: dom::get_attr(e, 4),
            selected: dom::get_attr(e, 6).is_some(),
        };
        let ghost before = out.deep_view();
        out.push(c);
        assert(out.deep_view() =~= before.push(c.deep_view()));
    }
    assert(out.deep_view() =~= Seq::new(all.len(), |i: int| choice_of(all[i])));
    out
}

fn read_controls(found: &Vec<Branch>) -> (r: Vec<Control>)
    ensures
        r.deep_view() == Seq::new(
            found.deep_view().len(),
            |i: int| control_of(found.deep_view()[i]),
        ),
{
    let ghost all = found.deep_view();
    let mut out: Vec<Control> = Vec::new();
    for i in 0..found.len()
        invariant
            all == found.deep_view(),
            out@.len() == i,
            forall|j: int| 0 <= j < i ==> out.deep_view()[j] == control_of(all[j]),
    {
        let b = &found[i];
        assert(all[i as int] == b.deep_view());
        let c = Control {
            tag: b.element.name.clone(),
            kind: dom::get_attr(&b.element, 2),
            name: dom::get_attr(&b.element, 3),
            value: dom::get_attr(&b.element, 4),
            required: dom::get_attr(&b.element, 5).is_some(),
            choices: read_choices(&b.inner),
        };
        assert(c.deep_view() =~= control_of(all[i as int]));
        let ghost before = out.deep_view();
        out.push(c);
        assert(out.deep_view() =~= before.push(c.deep_view()));
    }
    assert(out.deep_view() =~= Seq::new(all.len(), |i: int| control_of(all[i])));
    out
}

fn read_forms(html: &str, base: &Option<String>) -> (r: Vec<Form>)
    requires
        error::parseable(html@),
    ensures
        r.deep_view() == page_forms(html@, base.deep_view()),
{
    let attrs: Vec<&'static str> = vec![
        "method",
        "action",
        "type",
        "name",
        "value",
        "required",
        "selected",
    ];
    assert(attrs.deep_view() =~= seq![
        "method"@,
        "action"@,
        "type"@,
        "name"@,
        "value"@,
        "required"@,
        "selected"@,
    ]);
    proof {
        reveal_strlit("form");
        reveal_strlit("input, select, textarea");
        reveal_strlit("option");
    }
    let found = dom::select_nested(html, "form", "input, select, textarea", "option", &attrs);
    let ghost all = found.deep_view();
    let mut out: Vec<Form> = Vec::new();
    for i in 0..found.len()
        invariant
            all == found.deep_view(),
            out@.len() == i,
            forall|j: int|
                0 <= j < i ==> out.deep_view()[j] == raw_form_of(all[j], base.deep_view()),
    {
        let f = &found[i];
        assert(all[i as int] == f.deep_view());
        let form = Form {
            method: dom::get_attr(&f.element, 0),
            target: resolve_form_action(base, attr_or_empty(&f.element, 1).as_str()),
            controls: read_controls(&f.branches),
        };
        assert(form.deep_view() =~= raw_form_of(all[i as int], base.deep_view()));
        let ghost before = out.deep_view();
        out.push(form);
        assert(out.deep_view() =~= before.push(form.deep_view()));
    }
    assert(out.deep_view() =~= page_forms(html@, base.deep_view()));
    out
}

fn read_buttons(html: &str) -> (r: Vec<RawButton>)
    requires
        error::parseable(html@),
    ensures
        r.deep_view() == page_buttons(html@),
{
    let attrs: Vec<&'static str> = vec!["type", "value"];
    assert(attrs.deep_view() =~= seq!["type"@, "value"@]);
    proof {
        reveal_strlit("button, input[type=button], input[type=submit], input[type=reset]");
    }
    let found = dom::select(
        html,
        "button, input[type=button], input[type=submit], input[type=reset]",
        &attrs,
    );
    let ghost all = found.deep_view();
    let mut out: Vec<RawButton> = Vec::new();
    for i in 0..found.len()
        invariant
            all == found.deep_view(),
            out@.len() == i,
            forall|j: int| 0 <= j < i ==> out.deep_view()[j] == raw_button_of(all[j]),
    {
        let e = &found[i];
        assert(all[i as int] == e.deep_view());
        let b = RawButton {
            tag: e.element.name.clone(),
            kind: dom::get_attr(&e.element, 0),
            value: dom::get_attr(&e.element, 1),
            text: e.element.text.clone(),
            ancestors: copy_names(&e.ancestors),
        };
        let ghost before = out.deep_view();
        out.push(b);
        assert(out.deep_view() =~= before.push(b.deep_view()));
    }
    assert(out.deep_view() =~= page_buttons(html@));
    out
}

fn copy_names(names: &Vec<Option<String>>) -> (r: Vec<Option<String>>)
    ensures
        r.deep_view() == names.deep_view(),
{
    let mut out: Vec<Option<String>> = Vec::new();
    for i in 0..names.len()
        invariant
            out@.len() == i,
            forall|j: int| 0 <= j < i ==> out@[j].deep_view() == names@[j].deep_view(),
    {
        out.push(text::copy_opt(&names[i]));
    }
    assert(out.deep_view() =~= names.deep_view());
    out
}

// ---------------------------------------------------------------------------------------------
// Laws
// ---------------------------------------------------------------------------------------------

/// The limits cap each category of the tree, the fields of every form and the options of every
/// field.
pub proof fn law_limits_cap_the_tree(html: Seq<char>, base_url: Seq<char>, limits: ActionLimits)
    ensures
        tree_of(html, base_url, limits).links.len() <= limits.max_links,
        tree_of(html, base_url, limits).forms.len() <= limits.max_forms,
        tree_of(html, base_url, limits).buttons.len() <= limits.max_buttons,
        tree_of(html, base_url, limits).downloads.len() <= limits.max_downloads,
        forall|i: int|
            0 <= i < tree_of(html, base_url, limits).forms.len() ==> (#[trigger] tree_of(
                html,
                base_url,
                limits,
            ).forms[i]).fields.len() <= limits.max_fields_per_form,
        forall|i: int, k: int|
            0 <= i < tree_of(html, base_url, limits).forms.len() && 0 <= k < tree_of(
                html,
                base_url,
                limits,
            ).forms[i].fields.len() ==> (#[trigger] tree_of(
                html,
                base_url,
                limits,
            ).forms[i].fields[k]).options.len() <= limits.max_options_per_field,
{
    let base = base_of(base_url, base_href(html));
    lemma_links(page_anchors(html, base), limits.max_links);
    lemma_downloads(page_anchors(html, base), limits.max_downloads);
    lemma_buttons(page_buttons(html), limits.max_buttons);
    lemma_forms(page_forms(html, base), limits);
}

/// The id of every action is its category and its number in that category.
pub proof fn law_ids_follow_document_order(
    html: Seq<char>,
    base_url: Seq<char>,
    limits: ActionLimits,
    i: int,
)
    ensures
        0 <= i < tree_of(html, base_url, limits).links.len() ==> tree_of(
            html,
            base_url,
            limits,
        ).links[i].action_id == numbered("link_"@, i as nat),
        0 <= i < tree_of(html, base_url, limits).forms.len() ==> {
            &&& tree_of(html, base_url, limits).forms[i].action_id == numbered("form_"@, i as nat)
            &&& tree_of(html, base_url, limits).forms[i].submit_id == numbered("form_"@, i as nat)
                + ".submit"@
        },
        0 <= i < tree_of(html, base_url, limits).buttons.len() ==> tree_of(
            html,
            base_url,
            limits,
        ).buttons[i].action_id == numbered("button_"@, i as nat),
        0 <= i < tree_of(html, base_url, limits).downloads.len() ==> tree_of(
            html,
            base_url,
            limits,
        ).downloads[i].action_id == numbered("download_"@, i as nat),
{
    let base = base_of(base_url, base_href(html));
    lemma_links(page_anchors(html, base), limits.max_links);
    lemma_downloads(page_anchors(html, base), limits.max_downloads);
    lemma_buttons(page_buttons(html), limits.max_buttons);
    lemma_forms(page_forms(html, base), limits);
}

/// Every link, every download and every form leads to a URL of the web of at most
/// [`MAX_URL_CHARS`] characters.
pub proof fn law_actions_stay_on_the_web(
    html: Seq<char>,
    base_url: Seq<char>,
    limits: ActionLimits,
    i: int,
)
    ensures
        0 <= i < tree_of(html, base_url, limits).links.len() ==> weburl::is_web(
            tree_of(html, base_url, limits).links[i].href,
        ) && tree_of(html, base_url, limits).links[i].href.len() <= MAX_URL_CHARS,
        0 <= i < tree_of(html, base_url, limits).downloads.len() ==> weburl::is_web(
            tree_of(html, base_url, limits).downloads[i].href,
        ) && tree_of(html, base_url, limits).downloads[i].href.len() <= MAX_URL_CHARS,
        0 <= i < tree_of(html, base_url, limits).forms.len() ==> weburl::is_web(
            tree_of(html, base_url, limits).forms[i].action,
        ) && tree_of(html, base_url, limits).forms[i].action.len() <= MAX_URL_CHARS,
{
    let base = base_of(base_url, base_href(html));
    let anchors = page_anchors(html, base);
    lemma_links(anchors, limits.max_links);
    lemma_downloads(anchors, limits.max_downloads);
    let forms = page_forms(html, base);
    lemma_forms(forms, limits);
    if 0 <= i < links_of(anchors, limits.max_links).len() {
        let k = choose|k: int|
            0 <= k < anchors.len() && #[trigger] anchors[k].href == Some(
                links_of(anchors, limits.max_links)[i].href,
            );
        assert(anchors[k].href == Some(links_of(anchors, limits.max_links)[i].href));
    }
    if 0 <= i < downloads_of(anchors, limits.max_downloads).len() {
        let k = choose|k: int|
            0 <= k < anchors.len() && #[trigger] anchors[k].href == Some(
                downloads_of(anchors, limits.max_downloads)[i].href,
            );
        assert(anchors[k].href == Some(downloads_of(anchors, limits.max_downloads)[i].href));
    }
    if 0 <= i < forms_of(forms, limits).len() {
        let k = choose|k: int|
            0 <= k < forms.len() && #[trigger] forms[k].target == Some(
                forms_of(forms, limits)[i].action,
            );
        assert(forms[k].target == Some(forms_of(forms, limits)[i].action));
    }
}

/// A form is sent by `GET` or by `POST`.
pub proof fn law_forms_get_or_post(html: Seq<char>, base_url: Seq<char>, limits: ActionLimits, i: int)
    requires
        0 <= i < tree_of(html, base_url, limits).forms.len(),
    ensures
        tree_of(html, base_url, limits).forms[i].method == "GET"@ || tree_of(
            html,
            base_url,
            limits,
        ).forms[i].method == "POST"@,
{
    lemma_forms(page_forms(html, base_of(base_url, base_href(html))), limits);
}

proof fn lemma_links(anchors: Seq<AnchorModel>, max: usize)
    ensures
        links_of(anchors, max).len() <= max,
        forall|i: int|
            #![trigger links_of(anchors, max)[i]]
            0 <= i < links_of(anchors, max).len() ==> {
                &&& links_of(anchors, max)[i].action_id == numbered("link_"@, i as nat)
                &&& exists|k: int|
                    0 <= k < anchors.len() && #[trigger] anchors[k].href == Some(
                        links_of(anchors, max)[i].href,
                    )
            },
    decreases anchors.len(),
{
    if anchors.len() > 0 {
        let prior = anchors.drop_last();
        lemma_links(prior, max);
        let before = links_of(prior, max);
        assert forall|i: int| #![trigger links_of(anchors, max)[i]]
            0 <= i < links_of(anchors, max).len() implies {
            &&& links_of(anchors, max)[i].action_id == numbered("link_"@, i as nat)
            &&& exists|k: int|
                0 <= k < anchors.len() && #[trigger] anchors[k].href == Some(
                    links_of(anchors, max)[i].href,
                )
        } by {
            if i < before.len() {
                assert(links_of(anchors, max)[i] == before[i]);
                let k = choose|k: int|
                    0 <= k < prior.len() && #[trigger] prior[k].href == Some(before[i].href);
                assert(anchors[k].href == prior[k].href);
            } else {
                assert(anchors[anchors.len() - 1].href == Some(links_of(anchors, max)[i].href));
            }
        }
    }
}

proof fn lemma_downloads(anchors: Seq<AnchorModel>, max: usize)
    ensures
        downloads_of(anchors, max).len() <= max,
        forall|i: int|
            #![trigger downloads_of(anchors, max)[i]]
            0 <= i < downloads_of(anchors, max).len() ==> {
                &&& downloads_of(anchors, max)[i].action_id == numbered("download_"@, i as nat)
                &&& exists|k: int|
                    0 <= k < anchors.len() && #[trigger] anchors[k].href == Some(
                        downloads_of(anchors, max)[i].href,
                    )
            },
    decreases anchors.len(),
{
    if anchors.len() > 0 {
        let prior = anchors.drop_last();
        lemma_downloads(prior, max);
        let before = downloads_of(prior, max);
        assert forall|i: int| #![trigger downloads_of(anchors, max)[i]]
            0 <= i < downloads_of(anchors, max).len() implies {
            &&& downloads_of(anchors, max)[i].action_id == numbered("download_"@, i as nat)
            &&& exists|k: int|
                0 <= k < anchors.len() && #[trigger] anchors[k].href == Some(
                    downloads_of(anchors, max)[i].href,
                )
        } by {
            if i < before.len() {
                assert(downloads_of(anchors, max)[i] == before[i]);
                let k = choose|k: int|
                    0 <= k < prior.len() && #[trigger] prior[k].href == Some(before[i].href);
                assert(anchors[k].href == prior[k].href);
            } else {
                assert(anchors[anchors.len() - 1].href == Some(downloads_of(anchors, max)[i].href));
            }
        }
    }
}

proof fn lemma_buttons(buttons: Seq<RawButtonModel>, max: usize)
    ensures
        buttons_of(buttons, max).len() <= max,
        forall|i: int|
            0 <= i < buttons_of(buttons, max).len() ==> (#[trigger] buttons_of(
                buttons,
                max,
            )[i]).action_id == numbered("button_"@, i as nat),
    decreases buttons.len(),
{
    if buttons.len() > 0 {
        lemma_buttons(buttons.drop_last(), max);
        let before = buttons_of(buttons.drop_last(), max);
        assert forall|i: int| 0 <= i < buttons_of(buttons, max).len() implies (
        #[trigger] buttons_of(buttons, max)[i]).action_id == numbered("button_"@, i as nat) by {
            if i < before.len() {
                assert(buttons_of(buttons, max)[i] == before[i]);
            }
        }
    }
}

proof fn lemma_fields(controls: Seq<ControlModel>, limits: ActionLimits)
    ensures
        fields_of(controls, limits).len() <= limits.max_fields_per_form,
        forall|k: int|
            0 <= k < fields_of(controls, limits).len() ==> (#[trigger] fields_of(
                controls,
                limits,
            )[k]).options.len() <= limits.max_options_per_field,
    decreases controls.len(),
{
    if controls.len() > 0 {
        lemma_fields(controls.drop_last(), limits);
        lemma_options(first(controls.last().choices, limits.max_options_per_field));
    }
}

proof fn lemma_options(choices: Seq<ChoiceModel>)
    ensures
        options_of(choices).len() <= choices.len(),
    decreases choices.len(),
{
    if choices.len() > 0 {
        lemma_options(choices.drop_last());
    }
}

proof fn lemma_forms(forms: Seq<RawFormModel>, limits: ActionLimits)
    ensures
        forms_of(forms, limits).len() <= limits.max_forms,
        forall|i: int|
            #![trigger forms_of(forms, limits)[i]]
            0 <= i < forms_of(forms, limits).len() ==> {
                let f = forms_of(forms, limits)[i];
                &&& f.action_id == numbered("form_"@, i as nat)
                &&& f.submit_id == numbered("form_"@, i as nat) + ".submit"@
                &&& f.fields.len() <= limits.max_fields_per_form
                &&& forall|k: int|
                    0 <= k < f.fields.len() ==> (#[trigger] f.fields[k]).options.len()
                        <= limits.max_options_per_field
                &&& f.method == "GET"@ || f.method == "POST"@
                &&& exists|k: int|
                    0 <= k < forms.len() && #[trigger] forms[k].target == Some(f.action)
            },
    decreases forms.len(),
{
    if forms.len() > 0 {
        let prior = forms.drop_last();
        lemma_forms(prior, limits);
        lemma_fields(forms.last().controls, limits);
        let before = forms_of(prior, limits);
        assert forall|i: int| #![trigger forms_of(forms, limits)[i]]
            0 <= i < forms_of(forms, limits).len() implies {
            let f = forms_of(forms, limits)[i];
            &&& f.action_id == numbered("form_"@, i as nat)
            &&& f.submit_id == numbered("form_"@, i as nat) + ".submit"@
            &&& f.fields.len() <= limits.max_fields_per_form
            &&& forall|k: int|
                0 <= k < f.fields.len() ==> (#[trigger] f.fields[k]).options.len()
                    <= limits.max_options_per_field
            &&& f.method == "GET"@ || f.method == "POST"@
            &&& exists|k: int| 0 <= k < forms.len() && #[trigger] forms[k].target == Some(f.action)
        } by {
            let f = forms_of(forms, limits)[i];
            if i < before.len() {
                assert(f == before[i]);
                let k = choose|k: int|
                    0 <= k < prior.len() && #[trigger] prior[k].target == Some(before[i].action);
                assert(forms[k].target == prior[k].target);
            } else {
                assert(forms[forms.len() - 1].target == Some(f.action));
            }
        }
    }
}

/// The kind is one of the three that there are.
pub open spec fn known_kind(kind: Seq<char>) -> bool {
    kind == "button"@ || kind == "submit"@ || kind == "reset"@
}

proof fn lemma_button_kinds(buttons: Seq<RawButtonModel>, max: usize, i: int)
    requires
        0 <= i < buttons_of(buttons, max).len(),
    ensures
        known_kind(buttons_of(buttons, max)[i].kind),
    decreases buttons.len(),
{
    if i < buttons_of(buttons.drop_last(), max).len() {
        lemma_button_kinds(buttons.drop_last(), max, i);
    }
}

/// Every button is a plain one, submits or resets.
pub proof fn law_buttons_are_of_three_kinds(
    html: Seq<char>,
    base_url: Seq<char>,
    limits: ActionLimits,
    i: int,
)
    requires
        0 <= i < tree_of(html, base_url, limits).buttons.len(),
    ensures
        known_kind(tree_of(html, base_url, limits).buttons[i].kind),
{
    lemma_button_kinds(page_buttons(html), limits.max_buttons, i);
}

/// The first `n` of them, or all where there are fewer.
pub open spec fn at_most<T>(s: Seq<T>, n: usize) -> Seq<T> {
    if s.len() <= n {
        s
    } else {
        s.take(n as int)
    }
}

proof fn lemma_fewer_anchors(anchors: Seq<AnchorModel>, few: usize, many: usize)
    requires
        few <= many,
    ensures
        links_of(anchors, few) == at_most(links_of(anchors, many), few),
        downloads_of(anchors, few) == at_most(downloads_of(anchors, many), few),
    decreases anchors.len(),
{
    if anchors.len() > 0 {
        lemma_fewer_anchors(anchors.drop_last(), few, many);
        assert(links_of(anchors, few) =~= at_most(links_of(anchors, many), few));
        assert(downloads_of(anchors, few) =~= at_most(downloads_of(anchors, many), few));
    }
}

proof fn lemma_fewer_buttons(buttons: Seq<RawButtonModel>, few: usize, many: usize)
    requires
        few <= many,
    ensures
        buttons_of(buttons, few) == at_most(buttons_of(buttons, many), few),
    decreases buttons.len(),
{
    if buttons.len() > 0 {
        lemma_fewer_buttons(buttons.drop_last(), few, many);
        assert(buttons_of(buttons, few) =~= at_most(buttons_of(buttons, many), few));
    }
}

proof fn lemma_same_fields(controls: Seq<ControlModel>, a: ActionLimits, b: ActionLimits)
    requires
        a.max_fields_per_form == b.max_fields_per_form,
        a.max_options_per_field == b.max_options_per_field,
    ensures
        fields_of(controls, a) == fields_of(controls, b),
    decreases controls.len(),
{
    if controls.len() > 0 {
        lemma_same_fields(controls.drop_last(), a, b);
    }
}

proof fn lemma_fewer_forms(forms: Seq<RawFormModel>, few: ActionLimits, many: ActionLimits)
    requires
        few.max_forms <= many.max_forms,
        few.max_fields_per_form == many.max_fields_per_form,
        few.max_options_per_field == many.max_options_per_field,
    ensures
        forms_of(forms, few) == at_most(forms_of(forms, many), few.max_forms),
    decreases forms.len(),
{
    if forms.len() > 0 {
        lemma_fewer_forms(forms.drop_last(), few, many);
        lemma_same_fields(forms.last().controls, few, many);
        assert(forms_of(forms, few) =~= at_most(forms_of(forms, many), few.max_forms));
    }
}

/// A lower limit on links, forms, buttons or downloads cuts the tail of these off, and changes
/// nothing else: what is left keeps its ids.
pub proof fn law_lower_limits_cut_the_tail(
    html: Seq<char>,
    base_url: Seq<char>,
    few: ActionLimits,
    many: ActionLimits,
)
    requires
        few.max_links <= many.max_links,
        few.max_forms <= many.max_forms,
        few.max_buttons <= many.max_buttons,
        few.max_downloads <= many.max_downloads,
        few.max_fields_per_form == many.max_fields_per_form,
        few.max_options_per_field == many.max_options_per_field,
    ensures
        ({
            let short = tree_of(html, base_url, few);
            let long = tree_of(html, base_url, many);
            &&& short.links == at_most(long.links, few.max_links)
            &&& short.forms == at_most(long.forms, few.max_forms)
            &&& short.buttons == at_most(long.buttons, few.max_buttons)
            &&& short.downloads == at_most(long.downloads, few.max_downloads)
        }),
{
    let base = base_of(base_url, base_href(html));
    lemma_fewer_anchors(page_anchors(html, base), few.max_links, many.max_links);
    lemma_fewer_anchors(page_anchors(html, base), few.max_downloads, many.max_downloads);
    lemma_fewer_forms(page_forms(html, base), few, many);
    lemma_fewer_buttons(page_buttons(html), few.max_buttons, many.max_buttons);
}

/// The links of a page are those of its anchors that lead to the web, have no `download` attribute
/// and name no file to download: the first ones up to the limit, in document order, each with the
/// URL that it leads to and the text that it shows.
pub proof fn law_links_are_the_anchors_that_lead_on(
    html: Seq<char>,
    base_url: Seq<char>,
    limits: ActionLimits,
)
    ensures
        ({
            let base = base_of(base_url, base_href(html));
            let found = dom::selected(html, "a[href]"@, seq!["href"@, "download"@]);
            let kept = found.filter(
                |p: PlacedModel|
                    {
                        &&& link_target(base, or_empty(dom::attr(p.element, 0))) matches Some(url)
                            && !is_file_path(text::lowered(text::before_either(url, '?', '#')))
                        &&& dom::attr(p.element, 1) is None
                    },
            );
            let links = tree_of(html, base_url, limits).links;
            &&& links.len() == if kept.len() < limits.max_links {
                kept.len()
            } else {
                limits.max_links as nat
            }
            &&& forall|i: int|
                0 <= i < links.len() ==> #[trigger] links[i] == (LinkModel {
                    action_id: "link_"@ + text::decimal(i as nat),
                    text: text::shortened(text::collapsed(kept[i].element.text), 240),
                    href: link_target(base, or_empty(dom::attr(kept[i].element, 0)))->0,
                })
        }),
{
    let base = base_of(base_url, base_href(html));
    let found = dom::selected(html, "a[href]"@, seq!["href"@, "download"@]);
    lemma_links_filter(found, base, limits.max_links);
}

proof fn lemma_links_filter(found: Seq<PlacedModel>, base: Option<Seq<char>>, max: usize)
    ensures
        ({
            let kept = found.filter(
                |p: PlacedModel|
                    {
                        &&& link_target(base, or_empty(dom::attr(p.element, 0))) matches Some(url)
                            && !is_file_path(text::lowered(text::before_either(url, '?', '#')))
                        &&& dom::attr(p.element, 1) is None
                    },
            );
            let links = links_of(
                Seq::new(found.len(), |i: int| anchor_of(found[i].element, base)),
                max,
            );
            &&& links.len() == if kept.len() < max {
                kept.len()
            } else {
                max as nat
            }
            &&& forall|i: int|
                0 <= i < links.len() ==> #[trigger] links[i] == (LinkModel {
                    action_id: "link_"@ + text::decimal(i as nat),
                    text: text::shortened(text::collapsed(kept[i].element.text), 240),
                    href: link_target(base, or_empty(dom::attr(kept[i].element, 0)))->0,
                })
        }),
    decreases found.len(),
{
    reveal(Seq::filter);
    let anchors = Seq::new(found.len(), |i: int| anchor_of(found[i].element, base));
    if found.len() > 0 {
        let prior = found.drop_last();
        lemma_links_filter(prior, base, max);
        assert(anchors.drop_last() =~= Seq::new(
            prior.len(),
            |i: int| anchor_of(prior[i].element, base),
        ));
        assert(anchors.last() == anchor_of(found.last().element, base));
    }
}

/// The downloads of a page are those of its anchors that lead to the web and have a `download`
/// attribute or name a file to download: the first ones up to the limit, in document order. The
/// name of the file is what the attribute says, or else the last part of the path.
pub proof fn law_downloads_are_the_anchors_of_files(
    html: Seq<char>,
    base_url: Seq<char>,
    limits: ActionLimits,
)
    ensures
        ({
            let base = base_of(base_url, base_href(html));
            let found = dom::selected(html, "a[href]"@, seq!["href"@, "download"@]);
            let kept = found.filter(
                |p: PlacedModel|
                    link_target(base, or_empty(dom::attr(p.element, 0))) matches Some(url) && (
                    dom::attr(p.element, 1) is Some || is_file_path(
                        text::lowered(text::before_either(url, '?', '#')),
                    )),
            );
            let downloads = tree_of(html, base_url, limits).downloads;
            &&& downloads.len() == if kept.len() < limits.max_downloads {
                kept.len()
            } else {
                limits.max_downloads as nat
            }
            &&& forall|i: int|
                #![trigger downloads[i]]
                0 <= i < downloads.len() ==> {
                    let d = downloads[i];
                    let e = kept[i].element;
                    let given = match dom::attr(e, 1) {
                        Some(name) => text::trimmed(name),
                        None => seq![],
                    };
                    let name = if given.len() > 0 {
                        given
                    } else {
                        text::after_last(text::before_either(d.href, '?', '#'), '/')
                    };
                    &&& d.action_id == "download_"@ + text::decimal(i as nat)
                    &&& d.text == text::shortened(text::collapsed(e.text), 240)
                    &&& link_target(base, or_empty(dom::attr(e, 0))) == Some(d.href)
                    &&& name.len() == 0 ==> d.filename is None
                    &&& name.len() > 0 ==> d.filename == Some(text::shortened(name, 240))
                }
        }),
{
    let base = base_of(base_url, base_href(html));
    let found = dom::selected(html, "a[href]"@, seq!["href"@, "download"@]);
    lemma_downloads_filter(found, base, limits.max_downloads);
}

proof fn lemma_downloads_filter(found: Seq<PlacedModel>, base: Option<Seq<char>>, max: usize)
    ensures
        ({
            let kept = found.filter(
                |p: PlacedModel|
                    link_target(base, or_empty(dom::attr(p.element, 0))) matches Some(url) && (
                    dom::attr(p.element, 1) is Some || is_file_path(
                        text::lowered(text::before_either(url, '?', '#')),
                    )),
            );
            let downloads = downloads_of(
                Seq::new(found.len(), |i: int| anchor_of(found[i].element, base)),
                max,
            );
            &&& downloads.len() == if kept.len() < max {
                kept.len()
            } else {
                max as nat
            }
            &&& forall|i: int|
                #![trigger downloads[i]]
                0 <= i < downloads.len() ==> {
                    let d = downloads[i];
                    let e = kept[i].element;
                    let given = match dom::attr(e, 1) {
                        Some(name) => text::trimmed(name),
                        None => seq![],
                    };
                    let name = if given.len() > 0 {
                        given
                    } else {
                        text::after_last(text::before_either(d.href, '?', '#'), '/')
                    };
                    &&& d.action_id == "download_"@ + text::decimal(i as nat)
                    &&& d.text == text::shortened(text::collapsed(e.text), 240)
                    &&& link_target(base, or_empty(dom::attr(e, 0))) == Some(d.href)
                    &&& name.len() == 0 ==> d.filename is None
                    &&& name.len() > 0 ==> d.filename == Some(text::shortened(name, 240))
                }
        }),
    decreases found.len(),
{
    reveal(Seq::filter);
    let anchors = Seq::new(found.len(), |i: int| anchor_of(found[i].element, base));
    if found.len() > 0 {
        let prior = found.drop_last();
        lemma_downloads_filter(prior, base, max);
        assert(anchors.drop_last() =~= Seq::new(
            prior.len(),
            |i: int| anchor_of(prior[i].element, base),
        ));
        assert(anchors.last() == anchor_of(found.last().element, base));
    }
}

/// The buttons of a page are those that stand in no form: the first ones up to the limit, in
/// document order. An `input` shows its value, another element its text.
pub proof fn law_buttons_are_those_outside_forms(
    html: Seq<char>,
    base_url: Seq<char>,
    limits: ActionLimits,
)
    ensures
        ({
            let found = dom::selected(
                html,
                "button, input[type=button], input[type=submit], input[type=reset]"@,
                seq!["type"@, "value"@],
            );
            let kept = found.filter(
                |p: PlacedModel|
                    forall|i: int|
                        0 <= i < p.ancestors.len() ==> !(#[trigger] p.ancestors[i] matches Some(name)
                            && text::lowered(name) == text::lowered("form"@)),
            );
            let buttons = tree_of(html, base_url, limits).buttons;
            &&& buttons.len() == if kept.len() < limits.max_buttons {
                kept.len()
            } else {
                limits.max_buttons as nat
            }
            &&& forall|i: int|
                #![trigger buttons[i]]
                0 <= i < buttons.len() ==> {
                    let e = kept[i].element;
                    let kind = text::lowered(or_empty(dom::attr(e, 0)));
                    &&& buttons[i].action_id == "button_"@ + text::decimal(i as nat)
                    &&& e.name == "input"@ ==> buttons[i].text == text::shortened(
                        text::collapsed(or_empty(dom::attr(e, 1))),
                        240,
                    )
                    &&& e.name != "input"@ ==> buttons[i].text == text::shortened(
                        text::collapsed(e.text),
                        240,
                    )
                    &&& kind == "submit"@ || kind == "reset"@ ==> buttons[i].kind == kind
                    &&& kind != "submit"@ && kind != "reset"@ ==> buttons[i].kind == "button"@
                }
        }),
{
    let found = dom::selected(
        html,
        "button, input[type=button], input[type=submit], input[type=reset]"@,
        seq!["type"@, "value"@],
    );
    lemma_buttons_filter(found, limits.max_buttons);
}

proof fn lemma_buttons_filter(found: Seq<PlacedModel>, max: usize)
    ensures
        ({
            let kept = found.filter(
                |p: PlacedModel|
                    forall|i: int|
                        0 <= i < p.ancestors.len() ==> !(#[trigger] p.ancestors[i] matches Some(name)
                            && text::lowered(name) == text::lowered("form"@)),
            );
            let buttons = buttons_of(
                Seq::new(found.len(), |i: int| raw_button_of(found[i])),
                max,
            );
            &&& buttons.len() == if kept.len() < max {
                kept.len()
            } else {
                max as nat
            }
            &&& forall|i: int|
                #![trigger buttons[i]]
                0 <= i < buttons.len() ==> {
                    let e = kept[i].element;
                    let kind = text::lowered(or_empty(dom::attr(e, 0)));
                    &&& buttons[i].action_id == "button_"@ + text::decimal(i as nat)
                    &&& e.name == "input"@ ==> buttons[i].text == text::shortened(
                        text::collapsed(or_empty(dom::attr(e, 1))),
                        240,
                    )
                    &&& e.name != "input"@ ==> buttons[i].text == text::shortened(
                        text::collapsed(e.text),
                        240,
                    )
                    &&& kind == "submit"@ || kind == "reset"@ ==> buttons[i].kind == kind
                    &&& kind != "submit"@ && kind != "reset"@ ==> buttons[i].kind == "button"@
                }
        }),
    decreases found.len(),
{
    reveal(Seq::filter);
    reveal_strlit("submit");
    reveal_strlit("reset");
    assert(text::lowered(seq![]).len() == 0);
    let raw = Seq::new(found.len(), |i: int| raw_button_of(found[i]));
    if found.len() > 0 {
        let prior = found.drop_last();
        lemma_buttons_filter(prior, max);
        assert(raw.drop_last() =~= Seq::new(prior.len(), |i: int| raw_button_of(prior[i])));
        let b = raw_button_of(found.last());
        assert(raw.last() == b);
        assert(inside_form(b.ancestors) == !(forall|i: int|
            0 <= i < found.last().ancestors.len() ==> !(
            #[trigger] found.last().ancestors[i] matches Some(name) && text::lowered(name)
                == text::lowered("form"@))));
    }
}

/// The forms of a page are those that submit to the web: the first ones up to the limit, in
/// document order. A form posts exactly where its method says so, in whatever case.
pub proof fn law_forms_are_those_that_submit_to_the_web(
    html: Seq<char>,
    base_url: Seq<char>,
    limits: ActionLimits,
)
    ensures
        ({
            let base = base_of(base_url, base_href(html));
            let found = dom::selected_nested(
                html,
                "form"@,
                "input, select, textarea"@,
                "option"@,
                seq![
                    "method"@,
                    "action"@,
                    "type"@,
                    "name"@,
                    "value"@,
                    "required"@,
                    "selected"@,
                ],
            );
            let kept = found.filter(
                |f: BushModel| form_target(base, or_empty(dom::attr(f.element, 1))) is Some,
            );
            let forms = tree_of(html, base_url, limits).forms;
            &&& forms.len() == if kept.len() < limits.max_forms {
                kept.len()
            } else {
                limits.max_forms as nat
            }
            &&& forall|i: int|
                #![trigger forms[i]]
                0 <= i < forms.len() ==> {
                    let f = kept[i];
                    let posts = dom::attr(f.element, 0) matches Some(m) && text::uppered(
                        text::trimmed(m),
                    ) == "POST"@;
                    &&& forms[i].action_id == "form_"@ + text::decimal(i as nat)
                    &&& forms[i].submit_id == forms[i].action_id + ".submit"@
                    &&& form_target(base, or_empty(dom::attr(f.element, 1))) == Some(
                        forms[i].action,
                    )
                    &&& posts ==> forms[i].method == "POST"@
                    &&& !posts ==> forms[i].method == "GET"@
                    &&& forms[i].fields == fields_of(
                        Seq::new(f.branches.len(), |k: int| control_of(f.branches[k])),
                        limits,
                    )
                }
        }),
{
    let base = base_of(base_url, base_href(html));
    let found = dom::selected_nested(
        html,
        "form"@,
        "input, select, textarea"@,
        "option"@,
        seq!["method"@, "action"@, "type"@, "name"@, "value"@, "required"@, "selected"@],
    );
    lemma_forms_filter(found, base, limits);
}

proof fn lemma_forms_filter(found: Seq<BushModel>, base: Option<Seq<char>>, limits: ActionLimits)
    ensures
        ({
            let kept = found.filter(
                |f: BushModel| form_target(base, or_empty(dom::attr(f.element, 1))) is Some,
            );
            let forms = forms_of(
                Seq::new(found.len(), |i: int| raw_form_of(found[i], base)),
                limits,
            );
            &&& forms.len() == if kept.len() < limits.max_forms {
                kept.len()
            } else {
                limits.max_forms as nat
            }
            &&& forall|i: int|
                #![trigger forms[i]]
                0 <= i < forms.len() ==> {
                    let f = kept[i];
                    let posts = dom::attr(f.element, 0) matches Some(m) && text::uppered(
                        text::trimmed(m),
                    ) == "POST"@;
                    &&& forms[i].action_id == "form_"@ + text::decimal(i as nat)
                    &&& forms[i].submit_id == forms[i].action_id + ".submit"@
                    &&& form_target(base, or_empty(dom::attr(f.element, 1))) == Some(
                        forms[i].action,
                    )
                    &&& posts ==> forms[i].method == "POST"@
                    &&& !posts ==> forms[i].method == "GET"@
                    &&& forms[i].fields == fields_of(
                        Seq::new(f.branches.len(), |k: int| control_of(f.branches[k])),
                        limits,
                    )
                }
        }),
    decreases found.len(),
{
    reveal(Seq::filter);
    let raw = Seq::new(found.len(), |i: int| raw_form_of(found[i], base));
    if found.len() > 0 {
        let prior = found.drop_last();
        lemma_forms_filter(prior, base, limits);
        assert(raw.drop_last() =~= Seq::new(prior.len(), |i: int| raw_form_of(prior[i], base)));
        assert(raw.last() == raw_form_of(found.last(), base));
    }
}

/// Every named control of a form that is not an `input` of one of the types `submit`, `reset`,
/// `button` and `image` gives a field: the first ones up to the limit, in document order. Each has
/// the trimmed name of its control, its kind, its value and whether it is required.
pub proof fn law_every_named_control_is_a_field(branches: Seq<BranchModel>, limits: ActionLimits)
    ensures
        ({
            let kept = branches.filter(
                |b: BranchModel|
                    {
                        let e = b.element;
                        let kind = text::lowered(or_empty(dom::attr(e, 2)));
                        &&& dom::attr(e, 3) matches Some(name) && 1 <= text::trimmed(name).len()
                            <= 128
                        &&& e.name == "select"@ || e.name == "textarea"@ || (kind != "submit"@ && kind
                            != "reset"@ && kind != "button"@ && kind != "image"@)
                    },
            );
            let fields = fields_of(
                Seq::new(branches.len(), |k: int| control_of(branches[k])),
                limits,
            );
            &&& fields.len() == if kept.len() < limits.max_fields_per_form {
                kept.len()
            } else {
                limits.max_fields_per_form as nat
            }
            &&& forall|i: int|
                #![trigger fields[i]]
                0 <= i < fields.len() ==> {
                    let e = kept[i].element;
                    let f = fields[i];
                    &&& f.name == text::trimmed(dom::attr(e, 3)->0)
                    &&& e.name == "select"@ || e.name == "textarea"@ ==> f.kind == e.name
                    &&& e.name != "select"@ && e.name != "textarea"@ ==> f.kind == text::lowered(
                        match dom::attr(e, 2) {
                            Some(kind) => kind,
                            None => "text"@,
                        },
                    )
                    &&& f.value == (if dom::attr(e, 4) matches Some(v) && 1 <= v.len() <= 512 {
                        dom::attr(e, 4)
                    } else {
                        None
                    })
                    &&& f.required == dom::attr(e, 5) is Some
                    &&& e.name != "select"@ ==> f.options.len() == 0
                    &&& e.name == "select"@ ==> f.options == options_of(
                        first(
                            Seq::new(kept[i].inner.len(), |k: int| choice_of(kept[i].inner[k])),
                            limits.max_options_per_field,
                        ),
                    )
                }
        }),
    decreases branches.len(),
{
    reveal(Seq::filter);
    reveal_strlit("submit");
    reveal_strlit("reset");
    reveal_strlit("button");
    reveal_strlit("image");
    reveal_strlit("text");
    reveal_strlit("select");
    reveal_strlit("textarea");
    assert(text::lowered(seq![]).len() == 0);
    let controls = Seq::new(branches.len(), |k: int| control_of(branches[k]));
    if branches.len() > 0 {
        let prior = branches.drop_last();
        law_every_named_control_is_a_field(prior, limits);
        assert(controls.drop_last() =~= Seq::new(prior.len(), |k: int| control_of(prior[k])));
        assert(controls.last() == control_of(branches.last()));
        let e = branches.last().element;
        let t = text::lowered("text"@);
        assert(t.len() == 4);
        let a = text::lowered(or_empty(dom::attr(e, 2)));
        assert("submit"@.len() == 6 && "reset"@.len() == 5 && "button"@.len() == 6 && "image"@.len()
            == 5);
        assert("select"@.len() == 6 && "textarea"@.len() == 8);
        assert("select"@[2] == 'l' && "submit"@[2] == 'b' && "button"@[2] == 't');
    }
}

/// The options of a list are what its first `option` elements offer, in document order: the value
/// that is sent is the attribute, or the shown text where there is none. One that is empty, or
/// whose value has more than 512 characters, is left out.
pub proof fn law_options_offer_their_value_or_their_text(inner: Seq<ElementModel>)
    ensures
        ({
            let kept = inner.filter(
                |e: ElementModel|
                    match dom::attr(e, 4) {
                        Some(v) => v.len() <= 512 && (v.len() > 0 || text::shortened(
                            text::collapsed(e.text),
                            240,
                        ).len() > 0),
                        None => text::shortened(text::collapsed(e.text), 240).len() > 0,
                    },
            );
            let options = options_of(Seq::new(inner.len(), |k: int| choice_of(inner[k])));
            &&& options.len() == kept.len()
            &&& forall|i: int|
                #![trigger options[i]]
                0 <= i < options.len() ==> {
                    &&& options[i].label == text::shortened(text::collapsed(kept[i].text), 240)
                    &&& options[i].value == match dom::attr(kept[i], 4) {
                        Some(v) => v,
                        None => options[i].label,
                    }
                    &&& options[i].selected == dom::attr(kept[i], 6) is Some
                }
        }),
    decreases inner.len(),
{
    reveal(Seq::filter);
    let choices = Seq::new(inner.len(), |k: int| choice_of(inner[k]));
    if inner.len() > 0 {
        let prior = inner.drop_last();
        law_options_offer_their_value_or_their_text(prior);
        assert(choices.drop_last() =~= Seq::new(prior.len(), |k: int| choice_of(prior[k])));
        assert(choices.last() == choice_of(inner.last()));
    }
}

/// The cap on options keeps the first ones.
pub proof fn law_the_first_options_are_kept<T>(s: Seq<T>, max: usize)
    ensures
        first(s, max).len() <= max,
        s.len() >= max ==> first(s, max).len() == max,
        s.len() <= max ==> first(s, max) == s,
        forall|i: int| 0 <= i < first(s, max).len() ==> #[trigger] first(s, max)[i] == s[i],
{
}

/// A reference leads to the URL that it is resolved to, where that is one of the web of at most
/// 2048 characters. An empty link and a place within the page lead nowhere; a form without an
/// action submits to the page itself.
pub proof fn law_references_lead_to_the_web(base: Option<Seq<char>>, raw: Seq<char>)
    ensures
        ({
            let r = text::trimmed(raw);
            let url = match base {
                Some(b) => match weburl::joined(b, r) {
                    Ok(href) => Some(href),
                    Err(_) => None,
                },
                None => match weburl::parsed(r) {
                    Ok(u) => Some(u.href),
                    Err(_) => None,
                },
            };
            let on_the_web = |u: Option<Seq<char>>|
                u matches Some(h) && h.len() <= 2048 && (weburl::parsed(h) matches Ok(parts) && (
                parts.scheme == "http"@ || parts.scheme == "https"@));
            &&& r.len() == 0 ==> link_target(base, raw) is None
            &&& r.len() > 0 && r[0] == '#' ==> link_target(base, raw) is None
            &&& r.len() > 0 && r[0] != '#' && on_the_web(url) ==> link_target(base, raw) == url
            &&& !on_the_web(url) ==> link_target(base, raw) is None
            &&& r.len() > 0 && on_the_web(url) ==> form_target(base, raw) == url
            &&& r.len() > 0 && !on_the_web(url) ==> form_target(base, raw) is None
            &&& r.len() == 0 && on_the_web(base) ==> form_target(base, raw) == base
            &&& r.len() == 0 && !on_the_web(base) ==> form_target(base, raw) is None
        }),
{
}

/// References are resolved against the first `base` element that has a `href`, where it leads to
/// the web, and otherwise against the URL of the page.
pub proof fn law_the_base_is_that_of_the_page(base_url: Seq<char>, html: Seq<char>, k: int)
    ensures
        weburl::parsed(base_url) is Err ==> base_of(base_url, base_href(html)) is None,
        weburl::parsed(base_url) matches Ok(page) ==> {
            let found = dom::selected(html, "base[href]"@, seq!["href"@]);
            &&& (forall|j: int|
                0 <= j < found.len() ==> dom::attr((#[trigger] found[j]).element, 0) is None)
                ==> base_of(base_url, base_href(html)) == Some(page.href)
            &&& 0 <= k < found.len() && (forall|j: int|
                0 <= j < k ==> dom::attr((#[trigger] found[j]).element, 0) is None) ==> (dom::attr(
                found[k].element,
                0,
            ) matches Some(raw) ==> match weburl::joined(page.href, text::trimmed(raw)) {
                Ok(b) => if weburl::parsed(b) matches Ok(parts) && (parts.scheme == "http"@
                    || parts.scheme == "https"@) {
                    base_of(base_url, base_href(html)) == Some(b)
                } else {
                    base_of(base_url, base_href(html)) == Some(page.href)
                },
                Err(_) => base_of(base_url, base_href(html)) == Some(page.href),
            })
        },
{
    let found = dom::selected(html, "base[href]"@, seq!["href"@]);
    lemma_first_attr(found, k);
}

proof fn lemma_first_attr(found: Seq<PlacedModel>, k: int)
    ensures
        (forall|j: int| 0 <= j < found.len() ==> dom::attr((#[trigger] found[j]).element, 0) is None)
            ==> first_attr(found) is None,
        0 <= k < found.len() && (forall|j: int|
            0 <= j < k ==> dom::attr((#[trigger] found[j]).element, 0) is None) && dom::attr(
            found[k].element,
            0,
        ) is Some ==> first_attr(found) == dom::attr(found[k].element, 0),
    decreases found.len(),
{
    if found.len() > 0 {
        let rest = found.drop_first();
        lemma_first_attr(rest, k - 1);
        if dom::attr(found[0].element, 0) is None {
            assert forall|j: int|
                (forall|j: int|
                    0 <= j < k ==> dom::attr((#[trigger] found[j]).element, 0) is None) && 0 <= j < k
                    - 1 && j < rest.len() implies dom::attr(
                (#[trigger] rest[j]).element,
                0,
            ) is None by {
                assert(rest[j] == found[j + 1]);
            }
            assert forall|j: int|
                (forall|j: int|
                    0 <= j < found.len() ==> dom::attr((#[trigger] found[j]).element, 0) is None)
                    && 0 <= j < rest.len() implies dom::attr((#[trigger] rest[j]).element, 0) is None by {
                assert(rest[j] == found[j + 1]);
            }
            if 0 < k < found.len() {
                assert(rest[k - 1] == found[k]);
            }
        }
    }
}

/// A path names a file to download exactly where it ends in one of the known extensions.
pub proof fn law_files_are_known_by_their_extension(path: Seq<char>)
    ensures
        is_file_path(path) <==> exists|stem: Seq<char>, ext: Seq<char>|
            #![trigger stem + ext]
            path == stem + ext && (ext == ".pdf"@ || ext == ".zip"@ || ext == ".tar"@ || ext == ".gz"@
                || ext == ".tgz"@ || ext == ".rar"@ || ext == ".7z"@ || ext == ".csv"@ || ext
                == ".tsv"@ || ext == ".xlsx"@ || ext == ".xls"@ || ext == ".doc"@ || ext == ".docx"@
                || ext == ".ppt"@ || ext == ".pptx"@ || ext == ".odt"@ || ext == ".ods"@ || ext
                == ".dmg"@ || ext == ".exe"@ || ext == ".msi"@ || ext == ".deb"@ || ext == ".rpm"@
                || ext == ".apk"@ || ext == ".iso"@ || ext == ".mp3"@ || ext == ".mp4"@ || ext
                == ".wav"@ || ext == ".mov"@),
{
    lemma_ends(path);
    if is_file_path(path) {
        let ext = if text::ends(path, ".pdf"@) {
            ".pdf"@
        } else if text::ends(path, ".zip"@) {
            ".zip"@
        } else if text::ends(path, ".tar"@) {
            ".tar"@
        } else if text::ends(path, ".gz"@) {
            ".gz"@
        } else if text::ends(path, ".tgz"@) {
            ".tgz"@
        } else if text::ends(path, ".rar"@) {
            ".rar"@
        } else if text::ends(path, ".7z"@) {
            ".7z"@
        } else if text::ends(path, ".csv"@) {
            ".csv"@
        } else if text::ends(path, ".tsv"@) {
            ".tsv"@
        } else if text::ends(path, ".xlsx"@) {
            ".xlsx"@
        } else if text::ends(path, ".xls"@) {
            ".xls"@
        } else if text::ends(path, ".doc"@) {
            ".doc"@
        } else if text::ends(path, ".docx"@) {
            ".docx"@
        } else if text::ends(path, ".ppt"@) {
            ".ppt"@
        } else if text::ends(path, ".pptx"@) {
            ".pptx"@
        } else if text::ends(path, ".odt"@) {
            ".odt"@
        } else if text::ends(path, ".ods"@) {
            ".ods"@
        } else if text::ends(path, ".dmg"@) {
            ".dmg"@
        } else if text::ends(path, ".exe"@) {
            ".exe"@
        } else if text::ends(path, ".msi"@) {
            ".msi"@
        } else if text::ends(path, ".deb"@) {
            ".deb"@
        } else if text::ends(path, ".rpm"@) {
            ".rpm"@
        } else if text::ends(path, ".apk"@) {
            ".apk"@
        } else if text::ends(path, ".iso"@) {
            ".iso"@
        } else if text::ends(path, ".mp3"@) {
            ".mp3"@
        } else if text::ends(path, ".mp4"@) {
            ".mp4"@
        } else if text::ends(path, ".wav"@) {
            ".wav"@
        } else {
            ".mov"@
        };
        assert(text::ends(path, ext));
        let stem = path.take(path.len() - ext.len());
        assert(path == stem + ext);
    }
}

proof fn lemma_ends(path: Seq<char>)
    ensures
        forall|stem: Seq<char>, ext: Seq<char>|
            path == #[trigger] (stem + ext) ==> text::ends(path, ext),
        forall|ext: Seq<char>| #[trigger]
            text::ends(path, ext) ==> path == path.take(path.len() - ext.len()) + ext,
{
    assert forall|stem: Seq<char>, ext: Seq<char>| path == #[trigger] (stem + ext) implies text::ends(
        path,
        ext,
    ) by {
        assert(path.subrange(path.len() - ext.len(), path.len() as int) =~= ext);
    }
    assert forall|ext: Seq<char>| #[trigger] text::ends(path, ext) implies path == path.take(
        path.len() - ext.len(),
    ) + ext by {
        assert(path =~= path.take(path.len() - ext.len()) + path.subrange(
            path.len() - ext.len(),
            path.len() as int,
        ));
    }
}

/// The number of actions counts all four categories.
pub proof fn law_the_total_counts_every_category(tree: TreeModel)
    ensures
        tree.total() == tree.links.len() + tree.forms.len() + tree.buttons.len()
            + tree.downloads.len(),
        tree.total() == 0 <==> tree.links.len() == 0 && tree.forms.len() == 0 && tree.buttons.len()
            == 0 && tree.downloads.len() == 0,
{
}

/// The mathematical value of an action shows every part of it.
pub proof fn law_views_show_every_part(
    tree: ActionTree,
    l: LinkAction,
    f: FormAction,
    field: FormField,
    o: FormOption,
    b: ButtonAction,
    d: DownloadAction,
)
    ensures
        tree.deep_view().links == tree.links.deep_view(),
        tree.deep_view().forms == tree.forms.deep_view(),
        tree.deep_view().buttons == tree.buttons.deep_view(),
        tree.deep_view().downloads == tree.downloads.deep_view(),
        l.deep_view().action_id == l.action_id@ && l.deep_view().text == l.text@
            && l.deep_view().href == l.href@,
        f.deep_view().action_id == f.action_id@ && f.deep_view().method == f.method@
            && f.deep_view().action == f.action@ && f.deep_view().fields == f.fields.deep_view()
            && f.deep_view().submit_id == f.submit_id@,
        field.deep_view().name == field.name@ && field.deep_view().kind == field.kind@
            && field.deep_view().value == field.value.deep_view() && field.deep_view().options
            == field.options.deep_view() && field.deep_view().required == field.required,
        o.deep_view().value == o.value@ && o.deep_view().label == o.label@
            && o.deep_view().selected == o.selected,
        b.deep_view().action_id == b.action_id@ && b.deep_view().text == b.text@
            && b.deep_view().kind == b.kind@,
        d.deep_view().action_id == d.action_id@ && d.deep_view().text == d.text@
            && d.deep_view().href == d.href@ && d.deep_view().filename == d.filename.deep_view(),
{
}

/// Two extractions from one page agree on every action that both limits let through.
pub proof fn law_extractions_agree_on_what_both_let_through(
    html: &str,
    base_url: &str,
    few: ActionLimits,
    many: ActionLimits,
    short: ActionTree,
    long: ActionTree,
    i: int,
)
    requires
        call_ensures(extract_actions, (html, base_url, few), short),
        call_ensures(extract_actions, (html, base_url, many), long),
        few.max_links <= many.max_links,
        few.max_forms <= many.max_forms,
        few.max_buttons <= many.max_buttons,
        few.max_downloads <= many.max_downloads,
        few.max_fields_per_form == many.max_fields_per_form,
        few.max_options_per_field == many.max_options_per_field,
    ensures
        0 <= i < short.deep_view().links.len() ==> short.deep_view().links[i]
            == long.deep_view().links[i],
        0 <= i < short.deep_view().forms.len() ==> short.deep_view().forms[i]
            == long.deep_view().forms[i],
        0 <= i < short.deep_view().buttons.len() ==> short.deep_view().buttons[i]
            == long.deep_view().buttons[i],
        0 <= i < short.deep_view().downloads.len() ==> short.deep_view().downloads[i]
            == long.deep_view().downloads[i],
        short.deep_view().links.len() == few.max_links || short.deep_view().links
            == long.deep_view().links,
{
    law_lower_limits_cut_the_tail(html@, base_url@, few, many);
}

} // verus!
