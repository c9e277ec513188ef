//! What a page shows, item by item, and what can be done with it.
use crate::epson::CounterResetTarget;
use crate::gui::Page;
use vstd::prelude::*;

verus! {

/// How a text is shown.
#[derive(Clone, Copy, Debug, PartialEq, Eq, Structural)]
pub enum Tone {
    Plain,
    Strong,
    Heading,
    Monospace,
    Success,
    Warning,
    Failure,
}

/// What happens when something on a page is pressed.
#[derive(Clone, Copy, Debug, PartialEq, Eq)]
pub enum Action {
    ShowPage(Page),
    SelectCandidate(usize),
    SelectFixture(usize),
    OpenFile,
    RefreshCandidates,
    ReadStatus,
    SaveDump,
    SelectAddress(usize),
    SelectRow(usize),
    PrepareSelectedWrite,
    PrepareWrite,
    PrepareRestore,
    PrepareReset(CounterResetTarget),
    RunValidation,
    ChooseImage,
    ChooseBackup,
    Cancel,
    Run,
    ClearTraffic,
    CaptureTraffic(bool),
    Nothing,
}

/// Which text a person edits.
#[derive(Clone, Copy, Debug, PartialEq, Eq, Structural)]
pub enum Entry {
    Address,
    Value,
    Confirmation,
}

/// One thing on a page.
#[derive(Clone, Debug, PartialEq, Eq)]
pub enum Item {
    Text { tone: Tone, text: String },
    /// A label with a value beside it.
    Pair { label: String, tone: Tone, value: String },
    Button { label: String, enabled: bool, action: Action },
    Choice { label: String, selected: bool, enabled: bool, action: Action },
    /// The choice of a model, for a file or for the expected printer.
    ModelPicker { selected: String, enabled: bool, expected: bool },
    /// A row of the table of fields.
    FieldRow {
        address: String,
        field: String,
        value: String,
        selected: bool,
        header: bool,
        hover: String,
        action: Action,
    },
    /// A line of the hex dump, with the place of the selected byte in it.
    DumpLine { address: usize, bytes: Vec<u8>, selected: Option<usize> },
    /// A row of the validation report.
    ReportRow { status: String, tone: Tone, check: String, detail: String },
    /// A transfer whose bytes are folded away.
    Transfer { id: u64, summary: String, detail: String },
    Check { label: String, checked: bool, action: Action },
    Edit { entry: Entry, label: String, hint: String, text: String },
    Separator,
    Space,
    GroupStart,
    GroupEnd,
}

/// The contents of an item.
pub enum ItemView {
    Text { tone: Tone, text: Seq<char> },
    Pair { label: Seq<char>, tone: Tone, value: Seq<char> },
    Button { label: Seq<char>, enabled: bool, action: Action },
    Choice { label: Seq<char>, selected: bool, enabled: bool, action: Action },
    ModelPicker { selected: Seq<char>, enabled: bool, expected: bool },
    FieldRow {
        address: Seq<char>,
        field: Seq<char>,
        value: Seq<char>,
        selected: bool,
        header: bool,
        hover: Seq<char>,
        action: Action,
    },
    DumpLine { address: nat, bytes: Seq<u8>, selected: Option<nat> },
    ReportRow { status: Seq<char>, tone: Tone, check: Seq<char>, detail: Seq<char> },
    Transfer { id: u64, summary: Seq<char>, detail: Seq<char> },
    Check { label: Seq<char>, checked: bool, action: Action },
    Edit { entry: Entry, label: Seq<char>, hint: Seq<char>, text: Seq<char> },
    Separator,
    Space,
    GroupStart,
    GroupEnd,
}

/// A place as a natural number.
pub open spec fn place(selected: Option<usize>) -> Option<nat> {
    match selected {
        Some(index) => Some(index as nat),
        None => None,
    }
}

impl View for Item {
    type V = ItemView;

    open spec fn view(&self) -> ItemView {
        match self {
            Item::Text { tone, text } => ItemView::Text { tone: *tone, text: text@ },
            Item::Pair { label, tone, value } => ItemView::Pair {
                label: label@,
                tone: *tone,
                value: value@,
            },
            Item::Button { label, enabled, action } => ItemView::Button {
                label: label@,
                enabled: *enabled,
                action: *action,
            },
            Item::Choice { label, selected, enabled, action } => ItemView::Choice {
                label: label@,
                selected: *selected,
                enabled: *enabled,
                action: *action,
            },
            Item::ModelPicker { selected, enabled, expected } => ItemView::ModelPicker {
                selected: selected@,
                enabled: *enabled,
                expected: *expected,
            },
            Item::FieldRow { address, field, value, selected, header, hover, action } =>
                ItemView::FieldRow {
                address: address@,
                field: field@,
                value: value@,
                selected: *selected,
                header: *header,
                hover: hover@,
                action: *action,
            },
            Item::DumpLine { address, bytes, selected } => ItemView::DumpLine {
                address: *address as nat,
                bytes: bytes@,
                selected: place(*selected),
            },
            Item::ReportRow { status, tone, check, detail } => ItemView::ReportRow {
                status: status@,
                tone: *tone,
                check: check@,
                detail: detail@,
            },
            Item::Transfer { id, summary, detail } => ItemView::Transfer {
                id: *id,
                summary: summary@,
                detail: detail@,
            },
            Item::Check { label, checked, action } => ItemView::Check {
                label: label@,
                checked: *checked,
                action: *action,
            },
            Item::Edit { entry, label, hint, text } => ItemView::Edit {
                entry: *entry,
                label: label@,
                hint: hint@,
                text: text@,
            },
            Item::Separator => ItemView::Separator,
            Item::Space => ItemView::Space,
            Item::GroupStart => ItemView::GroupStart,
            Item::GroupEnd => ItemView::GroupEnd,
        }
    }
}

/// The contents of several items.
pub open spec fn item_views(items: Seq<Item>) -> Seq<ItemView> {
    Seq::new(items.len(), |i: int| items[i]@)
}

/// A list without items.
pub fn no_items() -> (items: Vec<Item>)
    ensures
        item_views(items@) == Seq::<ItemView>::empty(),
{
    let items: Vec<Item> = Vec::new();
    proof {
        assert(item_views(items@) =~= Seq::empty());
    }
    items
}

/// Adds an item.
pub fn push_item(items: &mut Vec<Item>, item: Item)
    ensures
        item_views(final(items)@) == item_views(old(items)@).push(item@),
{
    items.push(item);
    proof {
        assert(item_views(items@) =~= item_views(old(items)@).push(item@));
    }
}

/// Adds the items of another list.
pub fn append_items(items: &mut Vec<Item>, more: Vec<Item>)
    ensures
        item_views(final(items)@) == item_views(old(items)@) + item_views(more@),
{
    let ghost added = more@;
    let mut more = more;
    items.append(&mut more);
    proof {
        assert(item_views(items@) =~= item_views(old(items)@) + item_views(added));
    }
}

/// A text in a tone.
pub open spec fn said(tone: Tone, text: Seq<char>) -> ItemView {
    ItemView::Text { tone, text }
}

/// A text as it is.
pub open spec fn plain(text: Seq<char>) -> ItemView {
    ItemView::Text { tone: Tone::Plain, text }
}

/// A button.
pub open spec fn button(label: Seq<char>, enabled: bool, action: Action) -> ItemView {
    ItemView::Button { label, enabled, action }
}

/// A label with a value beside it.
pub open spec fn pair(label: Seq<char>, value: Seq<char>) -> ItemView {
    ItemView::Pair { label, tone: Tone::Plain, value }
}

/// Adds a text.
pub fn push_text(items: &mut Vec<Item>, tone: Tone, text: &str)
    ensures
        item_views(final(items)@) == item_views(old(items)@).push(said(tone, text@)),
{
    push_item(items, Item::Text { tone, text: text.to_owned() });
}

/// Adds a text that has been put together.
pub fn push_line(items: &mut Vec<Item>, tone: Tone, text: String)
    ensures
        item_views(final(items)@) == item_views(old(items)@).push(said(tone, text@)),
{
    push_item(items, Item::Text { tone, text });
}

/// Adds a button.
pub fn push_button(items: &mut Vec<Item>, label: &str, enabled: bool, action: Action)
    ensures
        item_views(final(items)@) == item_views(old(items)@).push(button(label@, enabled, action)),
{
    push_item(items, Item::Button { label: label.to_owned(), enabled, action });
}

/// Adds a label with a value beside it.
pub fn push_pair_of(items: &mut Vec<Item>, label: &str, tone: Tone, value: String)
    ensures
        item_views(final(items)@) == item_views(old(items)@).push(
            (ItemView::Pair { label: label@, tone, value: value@ }),
        ),
{
    push_item(items, Item::Pair { label: label.to_owned(), tone, value });
}

} // verus!
