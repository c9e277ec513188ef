//! What the pages of the graphical interface show.
use crate::database::{valid_field, valid_spec};
use crate::dialog::prepared_operation;
use crate::epson::{CounterResetTarget, OperationView};
use crate::fields::{join, joined};
use crate::gui::{
    CandidateView, DescriptorCandidate, EepromRow, GuiState, Page, SourceMode,
    ValidationReportItem, ValidationStatus,
};
use crate::identity::{field_of_identity, identity_of};
use crate::items::{
    append_items, button, item_views, no_items, pair, plain, push_button, push_item, push_line,
    push_pair_of, push_text, said, Action, Item, ItemView, Tone,
};
use crate::platform::reaches_usb;
use crate::report::{or_words, resolved_model_of, string_text};
use crate::screen::{
    address_selected, begun_scan, byte_field, candidate_selected, chosen_candidate,
    chosen_fixture, expected_model, file_field_views, fixture_chosen, fixture_shown,
    operation_fields, operation_started, scan_text, shown_address, shown_bytes,
    shown_field_text, shown_fields, shown_value, source_text, without_usb, GuiView, LoadedView,
    PendingUsbOperation, PendingView, ReinkGui, ScanView, UsbScanStatus,
};
use crate::selected::{image_end, range_label, ReportView};
use crate::text::{dec, dec_text, hex, hex_text};
use crate::text_map::texts;
use crate::traffic::{decoders_reset, DebugTrafficEntry, EntryView, TraceView};
use crate::view::{
    address_label, address_text, byte_label, byte_text, eeprom_field_address_label,
    eeprom_field_tooltip, eeprom_field_value, eeprom_image_offset, end_truncate,
    field_address_text, field_value_text, tooltip_lines, truncated, FileFieldView,
};
use vstd::prelude::*;

verus! {

/// A number that may not have been reported.
pub open spec fn reported(number: Option<u8>) -> Seq<char> {
    match number {
        Some(number) => dec_text(number as nat),
        None => "not reported"@,
    }
}

fn report_number(number: Option<u8>) -> (text: String)
    ensures
        text@ == reported(number),
{
    match number {
        Some(number) => dec(number as u64),
        None => String::from_str("not reported"),
    }
}

/// The identifiers of a candidate.
pub open spec fn identifiers(candidate: CandidateView) -> Seq<char> {
    hex_text(candidate.vendor_id as nat, 4, true) + ":"@ + hex_text(
        candidate.product_id as nat,
        4,
        true,
    )
}

fn identifiers_of(candidate: &DescriptorCandidate) -> (text: String)
    ensures
        text@ == identifiers(candidate@),
{
    hex(candidate.vendor_id as u64, 4, true).concat(":").concat(
        hex(candidate.product_id as u64, 4, true).as_str(),
    )
}

/// How a candidate is listed.
pub open spec fn candidate_text(candidate: CandidateView) -> Seq<char> {
    candidate.alias + " — "@ + identifiers(candidate) + ", bus "@ + reported(candidate.bus_number)
        + ", address "@ + reported(candidate.device_address) + ", interface "@ + reported(
        candidate.interface_number,
    ) + " alt "@ + reported(candidate.alternate_setting)
}

fn candidate_label(candidate: &DescriptorCandidate) -> (label: String)
    ensures
        label@ == candidate_text(candidate@),
{
    candidate.alias.as_str().to_owned().concat(" — ").concat(
        identifiers_of(candidate).as_str(),
    ).concat(", bus ").concat(report_number(candidate.bus_number).as_str()).concat(
        ", address ",
    ).concat(report_number(candidate.device_address).as_str()).concat(", interface ").concat(
        report_number(candidate.interface_number).as_str(),
    ).concat(" alt ").concat(report_number(candidate.alternate_setting).as_str())
}

/// The tabs.
pub open spec fn tab_items(gui: GuiView) -> Seq<ItemView> {
    let page = gui.state.page;
    seq![
        ItemView::Choice {
            label: "Status"@,
            selected: page == Page::Status,
            enabled: true,
            action: Action::ShowPage(Page::Status),
        },
        ItemView::Choice {
            label: "EEPROM"@,
            selected: page == Page::Eeprom,
            enabled: true,
            action: Action::ShowPage(Page::Eeprom),
        },
        ItemView::Choice {
            label: "Tools"@,
            selected: page == Page::Tools,
            enabled: true,
            action: Action::ShowPage(Page::Tools),
        },
    ]
}

/// The listed candidates as choices.
pub open spec fn candidate_choices(gui: GuiView) -> Seq<ItemView> {
    Seq::new(
        gui.usb_candidates.len(),
        |i: int|
            ItemView::Choice {
                label: candidate_text(gui.usb_candidates[i]),
                selected: gui.selected_usb_candidate == Some(i as usize),
                enabled: !gui.operation_running,
                action: Action::SelectCandidate(i as usize),
            },
    )
}

/// The fixtures as choices.
pub open spec fn fixture_choices(gui: GuiView) -> Seq<ItemView> {
    Seq::new(
        gui.state.fixtures@.len(),
        |i: int|
            ItemView::Choice {
                label: gui.state.fixtures@[i].label@,
                selected: gui.loaded_eeprom is None && gui.selected_usb_candidate is None
                    && gui.selected_fixture == Some(i as usize),
                enabled: !gui.operation_running,
                action: Action::SelectFixture(i as usize),
            },
    )
}

/// The sources that can be chosen. While an operation runs none can be.
pub open spec fn source_items(gui: GuiView) -> Seq<ItemView> {
    seq![said(Tone::Strong, "USB descriptor candidates"@)] + (if gui.operation_running {
        seq![
            plain(
                "Source selection is locked until the selected-printer operation finishes."@,
            ),
        ]
    } else {
        seq![]
    }) + (if gui.usb_candidates.len() == 0 {
        seq![
            plain(
                if gui.usb_scan_status == ScanView::Scanning {
                    "Scanning…"@
                } else {
                    "No USB descriptor candidates"@
                },
            ),
        ]
    } else {
        seq![]
    }) + candidate_choices(gui) + (if gui.source_mode == SourceMode::Fixtures {
        seq![ItemView::Separator, said(Tone::Strong, "Fixtures"@)] + fixture_choices(gui)
    } else {
        seq![]
    }) + seq![
        ItemView::Separator,
        button("Open EEPROM file..."@, !gui.operation_running, Action::OpenFile),
    ]
}

/// What stands beside the choice of the source.
pub open spec fn source_bar_items(gui: GuiView) -> Seq<ItemView> {
    seq![
        plain("Printer"@),
        button(
            "Refresh USB candidates"@,
            reaches_usb(gui.platform) && gui.usb_scan_status != ScanView::Scanning
                && !gui.operation_running,
            Action::RefreshCandidates,
        ),
        plain(scan_text(gui)),
    ] + match gui.loaded_eeprom {
        None => seq![],
        Some(file) => if chosen_candidate(gui) is Some {
            seq![
                plain(or_words(file.model, "D4-confirmed model unavailable"@)),
                plain("D4-confirmed model"@),
            ]
        } else {
            seq![
                ItemView::ModelPicker {
                    selected: or_words(file.model, "Select model..."@),
                    enabled: true,
                    expected: false,
                },
            ]
        },
    }
}

/// The strip above the pages.
pub struct TabStrip {
    pub tabs: Vec<Item>,
    /// The source as it fits, and in full.
    pub source: String,
    pub source_hover: String,
    pub sources: Vec<Item>,
    pub bar: Vec<Item>,
}

/// The characters of the source that fit.
pub const SOURCE_CHARACTERS: usize = 42;

fn is_scanning(status: &UsbScanStatus) -> (scanning: bool)
    ensures
        scanning == (status@ == ScanView::Scanning),
{
    match status {
        UsbScanStatus::Scanning => true,
        _ => false,
    }
}

fn words_or(text: &Option<String>, words: &str) -> (chosen: String)
    ensures
        chosen@ == or_words(string_text(*text), words@),
{
    match text {
        Some(text) => text.clone(),
        None => words.to_owned(),
    }
}

impl ReinkGui {
    fn show_tabs(&self) -> (items: Vec<Item>)
        ensures
            item_views(items@) == tab_items(self@),
    {
        let page = self.state.page();
        let mut items = no_items();
        push_item(
            &mut items,
            Item::Choice {
                label: String::from_str("Status"),
                selected: page == Page::Status,
                enabled: true,
                action: Action::ShowPage(Page::Status),
            },
        );
        push_item(
            &mut items,
            Item::Choice {
                label: String::from_str("EEPROM"),
                selected: page == Page::Eeprom,
                enabled: true,
                action: Action::ShowPage(Page::Eeprom),
            },
        );
        push_item(
            &mut items,
            Item::Choice {
                label: String::from_str("Tools"),
                selected: page == Page::Tools,
                enabled: true,
                action: Action::ShowPage(Page::Tools),
            },
        );
        proof {
            assert(item_views(items@) =~= tab_items(self@));
        }
        items
    }

    fn show_candidates(&self) -> (items: Vec<Item>)
        ensures
            item_views(items@) == candidate_choices(self@),
    {
        let mut items = no_items();
        let ghost expected = candidate_choices(self@);
        let mut index: usize = 0;
        proof {
            assert(expected.take(0) =~= seq![]);
        }
        while index < self.usb_candidates.len()
            invariant
                index <= self.usb_candidates@.len(),
                expected == candidate_choices(self@),
                item_views(items@) == expected.take(index as int),
            decreases self.usb_candidates.len() - index,
        {
            let selected: bool = match self.selected_usb_candidate {
                Some(chosen) => chosen == index,
                None => false,
            };
            push_item(
                &mut items,
                Item::Choice {
                    label: candidate_label(&self.usb_candidates[index]),
                    selected,
                    enabled: !self.operation_running,
                    action: Action::SelectCandidate(index),
                },
            );
            proof {
                assert(expected.take(index + 1) =~= expected.take(index as int).push(
                    expected[index as int],
                ));
            }
            index = index + 1;
        }
        proof {
            assert(expected.take(index as int) =~= expected);
        }
        items
    }

    fn show_fixtures(&self) -> (items: Vec<Item>)
        ensures
            item_views(items@) == fixture_choices(self@),
    {
        let free: bool = self.loaded_eeprom.is_none() && self.selected_usb_candidate.is_none();
        let mut items = no_items();
        let ghost expected = fixture_choices(self@);
        let mut index: usize = 0;
        proof {
            assert(expected.take(0) =~= seq![]);
        }
        while index < self.state.fixtures.len()
            invariant
                index <= self.state.fixtures@.len(),
                expected == fixture_choices(self@),
                free == (self@.loaded_eeprom is None && self@.selected_usb_candidate is None),
                item_views(items@) == expected.take(index as int),
            decreases self.state.fixtures.len() - index,
        {
            let chosen: bool = match self.selected_fixture {
                Some(chosen) => chosen == index,
                None => false,
            };
            push_item(
                &mut items,
                Item::Choice {
                    label: self.state.fixtures[index].label.to_owned(),
                    selected: free && chosen,
                    enabled: !self.operation_running,
                    action: Action::SelectFixture(index),
                },
            );
            proof {
                assert(expected.take(index + 1) =~= expected.take(index as int).push(
                    expected[index as int],
                ));
            }
            index = index + 1;
        }
        proof {
            assert(expected.take(index as int) =~= expected);
        }
        items
    }

    fn show_sources(&self) -> (items: Vec<Item>)
        ensures
            item_views(items@) == source_items(self@),
    {
        let mut items = no_items();
        push_text(&mut items, Tone::Strong, "USB descriptor candidates");
        if self.operation_running {
            push_text(
                &mut items,
                Tone::Plain,
                "Source selection is locked until the selected-printer operation finishes.",
            );
        }
        if self.usb_candidates.len() == 0 {
            if is_scanning(&self.usb_scan_status) {
                push_text(&mut items, Tone::Plain, "Scanning…");
            } else {
                push_text(&mut items, Tone::Plain, "No USB descriptor candidates");
            }
        }
        append_items(&mut items, self.show_candidates());
        if self.source_mode.fixtures_enabled() {
            push_item(&mut items, Item::Separator);
            push_text(&mut items, Tone::Strong, "Fixtures");
            append_items(&mut items, self.show_fixtures());
        }
        push_item(&mut items, Item::Separator);
        push_button(
            &mut items,
            "Open EEPROM file...",
            !self.operation_running,
            Action::OpenFile,
        );
        proof {
            assert(item_views(items@) =~= source_items(self@));
        }
        items
    }

    fn show_source_bar(&self) -> (items: Vec<Item>)
        ensures
            item_views(items@) == source_bar_items(self@),
    {
        let mut items = no_items();
        push_text(&mut items, Tone::Plain, "Printer");
        push_button(
            &mut items,
            "Refresh USB candidates",
            self.platform.has_usb() && !is_scanning(&self.usb_scan_status)
                && !self.operation_running,
            Action::RefreshCandidates,
        );
        push_line(&mut items, Tone::Plain, self.usb_scan_status_label());
        if let Some(file) = &self.loaded_eeprom {
            if self.selected_usb_candidate().is_some() {
                push_line(
                    &mut items,
                    Tone::Plain,
                    words_or(&file.model, "D4-confirmed model unavailable"),
                );
                push_text(&mut items, Tone::Plain, "D4-confirmed model");
            } else {
                push_item(
                    &mut items,
                    Item::ModelPicker {
                        selected: words_or(&file.model, "Select model..."),
                        enabled: true,
                        expected: false,
                    },
                );
            }
        }
        proof {
            assert(item_views(items@) =~= source_bar_items(self@));
        }
        items
    }

    /// Shows the strip above the pages.
    pub fn tab_strip_pane(&self) -> (strip: TabStrip)
        requires
            self.well_formed(),
        ensures
            item_views(strip.tabs@) == tab_items(self@),
            strip.source@ == truncated(source_text(self@), SOURCE_CHARACTERS as nat),
            strip.source_hover@ == source_text(self@),
            item_views(strip.sources@) == source_items(self@),
            item_views(strip.bar@) == source_bar_items(self@),
    {
        let label = self.source_label();
        TabStrip {
            tabs: self.show_tabs(),
            source: end_truncate(label.as_str(), SOURCE_CHARACTERS),
            source_hover: label,
            sources: self.show_sources(),
            bar: self.show_source_bar(),
        }
    }
}

/// The operations on the status page of a candidate.
pub open spec fn status_operations(gui: GuiView) -> Seq<ItemView> {
    let enabled = expected_model(gui) is Some && !gui.operation_running;
    if reaches_usb(gui.platform) {
        seq![
            if gui.operation_running {
                said(Tone::Strong, "A selected-printer operation is running on a worker thread."@)
            } else {
                plain(
                    "No printer connection has been opened until one of these buttons is pressed."@,
                )
            },
            button("Read printer status"@, enabled, Action::ReadStatus),
            button("Save complete EEPROM dump..."@, enabled, Action::SaveDump),
            plain(
                "Raw identity fields are not retained in the GUI result. The explicitly requested status response is shown in the result pane; EEPROM images are private device-specific files."@,
            ),
        ]
    } else {
        seq![
            said(
                Tone::Strong,
                "Selected-printer operations are unavailable on this platform."@,
            ),
            button("Read printer status"@, false, Action::Nothing),
            button("Save complete EEPROM dump..."@, false, Action::Nothing),
        ]
    }
}

/// The status page of a candidate.
pub open spec fn candidate_status(gui: GuiView, candidate: CandidateView) -> Seq<ItemView> {
    seq![
        pair("Source"@, "Descriptor-only candidate"@),
        ItemView::Pair {
            label: "Selected alias"@,
            tone: Tone::Monospace,
            value: candidate.alias,
        },
        ItemView::Pair {
            label: "VID/PID"@,
            tone: Tone::Monospace,
            value: identifiers(candidate),
        },
        pair(
            "Bus/address"@,
            reported(candidate.bus_number) + " / "@ + reported(candidate.device_address),
        ),
        pair(
            "Interface/alternate setting"@,
            reported(candidate.interface_number) + " / "@ + reported(candidate.alternate_setting),
        ),
        pair(
            "Bundled model hints"@,
            if candidate.model_hints.len() == 0 {
                "No exact VID/PID associations in the bundled model database"@
            } else {
                joined(candidate.model_hints, ", "@)
            },
        ),
        ItemView::Space,
        plain(
            "Select an expected model as an operator-supplied guard. VID/PID associations are hints, not printer identity confirmation; every explicit operation reads the D4 identity and requires an exact model match before access."@,
        ),
        ItemView::ModelPicker {
            selected: or_words(gui.selected_usb_model, "Choose expected model..."@),
            enabled: !gui.operation_running,
            expected: true,
        },
    ] + status_operations(gui) + (if expected_model(gui) is None {
        seq![
            said(
                Tone::Warning,
                "Choose one expected model before opening the selected USB interface. It is confirmed only by the exact D4 identity read for the operation."@,
            ),
        ]
    } else {
        seq![]
    }) + match gui.loaded_eeprom {
        Some(file) => seq![
            ItemView::Space,
            plain(
                "Most recent connected image: "@ + dec_text(file.bytes.len()) + " bytes, "@
                    + address_text(file.start_address as nat) + "..="@ + address_text(
                    image_end(file.start_address as nat, file.bytes.len()),
                ) + "."@,
            ),
        ],
        None => seq![],
    }
}

/// The status page of a file.
pub open spec fn file_status(file: LoadedView) -> Seq<ItemView> {
    seq![
        pair("Source"@, "EEPROM file"@),
        ItemView::Pair { label: "Path"@, tone: Tone::Monospace, value: file.path },
        pair("Size"@, dec_text(file.bytes.len()) + " bytes"@),
        pair("Model"@, or_words(file.model, "Select a model in the tab bar"@)),
    ]
}

/// The status page without a source.
pub open spec fn empty_status() -> Seq<ItemView> {
    seq![
        said(Tone::Strong, "No printer selected"@),
        plain(
            "Default real mode has no fixture source. Select a descriptor-only candidate or open a raw EEPROM file."@,
        ),
        plain(
            "No printer connection, claim, driver handoff, control request, or protocol traffic has occurred."@,
        ),
    ]
}

/// What the identity of the fixture says: the manufacturer, the advertised
/// model and the model that it resolves to.
pub open spec fn fixture_resolution(gui: GuiView) -> (
    Option<Seq<char>>,
    Option<Seq<char>>,
    Option<Seq<char>>,
) {
    match identity_of(chosen_fixture(gui).identity@) {
        Ok(identity) => (
            field_of_identity(identity, "MFG"@),
            field_of_identity(identity, "MDL"@),
            resolved_model_of(identity, gui.state.database@),
        ),
        Err(_) => (None, None, None),
    }
}

/// The status page of a fixture.
pub open spec fn fixture_status(gui: GuiView) -> Seq<ItemView> {
    let resolution = fixture_resolution(gui);
    seq![
        ItemView::Pair {
            label: "Fixture IEEE 1284 ID"@,
            tone: Tone::Monospace,
            value: chosen_fixture(gui).identity@,
        },
        pair("Manufacturer"@, or_words(resolution.0, "Unavailable"@)),
        pair("Advertised model"@, or_words(resolution.1, "Unavailable"@)),
        pair("Bundled model match"@, or_words(resolution.2, "No built-in match"@)),
    ]
}

/// The status page.
pub open spec fn status_items(gui: GuiView) -> Seq<ItemView> {
    seq![said(Tone::Heading, "Printer status"@)] + match (
        chosen_candidate(gui),
        gui.loaded_eeprom,
    ) {
        (Some(candidate), _) => candidate_status(gui, candidate),
        (None, Some(file)) => file_status(file),
        (None, None) => if fixture_shown(gui) {
            fixture_status(gui)
        } else {
            empty_status()
        },
    }
}

impl ReinkGui {
    fn push_candidate_pairs(&self, items: &mut Vec<Item>, candidate: &DescriptorCandidate)
        ensures
            item_views(final(items)@) == item_views(old(items)@) + candidate_status(
                self@,
                candidate@,
            ).take(6),
    {
        push_pair_of(items, "Source", Tone::Plain, String::from_str("Descriptor-only candidate"));
        push_pair_of(items, "Selected alias", Tone::Monospace, candidate.alias.clone());
        push_pair_of(items, "VID/PID", Tone::Monospace, identifiers_of(candidate));
        push_pair_of(
            items,
            "Bus/address",
            Tone::Plain,
            report_number(candidate.bus_number).concat(" / ").concat(
                report_number(candidate.device_address).as_str(),
            ),
        );
        push_pair_of(
            items,
            "Interface/alternate setting",
            Tone::Plain,
            report_number(candidate.interface_number).concat(" / ").concat(
                report_number(candidate.alternate_setting).as_str(),
            ),
        );
        let hints = if candidate.model_hints.len() == 0 {
            String::from_str("No exact VID/PID associations in the bundled model database")
        } else {
            join(candidate.model_hints.as_slice(), ", ")
        };
        push_pair_of(items, "Bundled model hints", Tone::Plain, hints);
        proof {
            assert(item_views(items@) =~= item_views(old(items)@) + candidate_status(
                self@,
                candidate@,
            ).take(6));
        }
    }

    fn show_status_operations(&self) -> (items: Vec<Item>)
        requires
            self.well_formed(),
        ensures
            item_views(items@) == status_operations(self@),
    {
        let mut items = no_items();
        if !self.platform.has_usb() {
            push_text(
                &mut items,
                Tone::Strong,
                "Selected-printer operations are unavailable on this platform.",
            );
            push_button(&mut items, "Read printer status", false, Action::Nothing);
            push_button(&mut items, "Save complete EEPROM dump...", false, Action::Nothing);
            proof {
                assert(item_views(items@) =~= status_operations(self@));
            }
            return items;
        }
        let enabled: bool = self.selected_usb_model().is_some() && !self.operation_running;
        if self.operation_running {
            push_text(
                &mut items,
                Tone::Strong,
                "A selected-printer operation is running on a worker thread.",
            );
        } else {
            push_text(
                &mut items,
                Tone::Plain,
                "No printer connection has been opened until one of these buttons is pressed.",
            );
        }
        push_button(&mut items, "Read printer status", enabled, Action::ReadStatus);
        push_button(&mut items, "Save complete EEPROM dump...", enabled, Action::SaveDump);
        push_text(
            &mut items,
            Tone::Plain,
            "Raw identity fields are not retained in the GUI result. The explicitly requested status response is shown in the result pane; EEPROM images are private device-specific files.",
        );
        proof {
            assert(item_views(items@) =~= status_operations(self@));
        }
        items
    }

    fn show_candidate_status(&self, candidate: &DescriptorCandidate) -> (items: Vec<Item>)
        requires
            self.well_formed(),
        ensures
            item_views(items@) == candidate_status(self@, candidate@),
    {
        let known: bool = self.selected_usb_model().is_some();
        let mut items = no_items();
        self.push_candidate_pairs(&mut items, candidate);
        push_item(&mut items, Item::Space);
        push_text(
            &mut items,
            Tone::Plain,
            "Select an expected model as an operator-supplied guard. VID/PID associations are hints, not printer identity confirmation; every explicit operation reads the D4 identity and requires an exact model match before access.",
        );
        push_item(
            &mut items,
            Item::ModelPicker {
                selected: words_or(&self.selected_usb_model, "Choose expected model..."),
                enabled: !self.operation_running,
                expected: true,
            },
        );
        append_items(&mut items, self.show_status_operations());
        if !known {
            push_text(
                &mut items,
                Tone::Warning,
                "Choose one expected model before opening the selected USB interface. It is confirmed only by the exact D4 identity read for the operation.",
            );
        }
        if let Some(file) = &self.loaded_eeprom {
            push_item(&mut items, Item::Space);
            let line = String::from_str("Most recent connected image: ").concat(
                dec(file.bytes.len() as u64).as_str(),
            ).concat(" bytes, ").concat(
                range_label(file.start_address, file.bytes.len()).as_str(),
            ).concat(".");
            proof {
                assert(line@ =~= "Most recent connected image: "@ + dec_text(file.bytes@.len())
                    + " bytes, "@ + address_text(file.start_address as nat) + "..="@
                    + address_text(image_end(file.start_address as nat, file.bytes@.len()))
                    + "."@);
            }
            push_line(&mut items, Tone::Plain, line);
        }
        proof {
            assert(item_views(items@) =~= candidate_status(self@, candidate@));
        }
        items
    }

    fn show_fixture_status(&self) -> (items: Vec<Item>)
        requires
            self.well_formed(),
        ensures
            item_views(items@) == fixture_status(self@),
    {
        let resolution = self.state.identity_resolution();
        let mut items = no_items();
        push_pair_of(
            &mut items,
            "Fixture IEEE 1284 ID",
            Tone::Monospace,
            self.state.selected_fixture().identity.to_owned(),
        );
        push_pair_of(
            &mut items,
            "Manufacturer",
            Tone::Plain,
            words_or(&resolution.manufacturer, "Unavailable"),
        );
        push_pair_of(
            &mut items,
            "Advertised model",
            Tone::Plain,
            words_or(&resolution.advertised_model, "Unavailable"),
        );
        push_pair_of(
            &mut items,
            "Bundled model match",
            Tone::Plain,
            words_or(&resolution.resolved_model, "No built-in match"),
        );
        proof {
            assert(item_views(items@) =~= fixture_status(self@));
        }
        items
    }

    /// Shows the status page.
    pub fn status(&self) -> (items: Vec<Item>)
        requires
            self.well_formed(),
        ensures
            item_views(items@) == status_items(self@),
    {
        let mut items = no_items();
        push_text(&mut items, Tone::Heading, "Printer status");
        if let Some(candidate) = self.selected_usb_candidate() {
            append_items(&mut items, self.show_candidate_status(candidate));
        } else if let Some(file) = &self.loaded_eeprom {
            push_pair_of(&mut items, "Source", Tone::Plain, String::from_str("EEPROM file"));
            push_pair_of(&mut items, "Path", Tone::Monospace, file.path.clone());
            push_pair_of(
                &mut items,
                "Size",
                Tone::Plain,
                dec(file.bytes.len() as u64).concat(" bytes"),
            );
            push_pair_of(
                &mut items,
                "Model",
                Tone::Plain,
                words_or(&file.model, "Select a model in the tab bar"),
            );
        } else if self.fixture_selected() {
            append_items(&mut items, self.show_fixture_status());
        } else {
            push_text(&mut items, Tone::Strong, "No printer selected");
            push_text(
                &mut items,
                Tone::Plain,
                "Default real mode has no fixture source. Select a descriptor-only candidate or open a raw EEPROM file.",
            );
            push_text(
                &mut items,
                Tone::Plain,
                "No printer connection, claim, driver handoff, control request, or protocol traffic has occurred.",
            );
        }
        proof {
            assert(item_views(items@) =~= status_items(self@));
        }
        items
    }
}

/// The names of three columns.
pub open spec fn columns(first: Seq<char>, second: Seq<char>, third: Seq<char>) -> ItemView {
    ItemView::ReportRow { status: first, tone: Tone::Strong, check: second, detail: third }
}

fn push_columns(items: &mut Vec<Item>, first: &str, second: &str, third: &str)
    ensures
        item_views(final(items)@) == item_views(old(items)@).push(
            columns(first@, second@, third@),
        ),
{
    push_item(
        items,
        Item::ReportRow {
            status: first.to_owned(),
            tone: Tone::Strong,
            check: second.to_owned(),
            detail: third.to_owned(),
        },
    );
}

/// A row of the table of fields.
pub open spec fn field_row(
    address: Seq<char>,
    field: Seq<char>,
    value: Seq<char>,
    selected: bool,
    hover: Seq<char>,
    action: Action,
) -> ItemView {
    ItemView::FieldRow { address, field, value, selected, header: false, hover, action }
}

/// The rows of the fields that lie in an image, one after another.
pub open spec fn file_rows(
    fields: Seq<FileFieldView>,
    start_address: usize,
    bytes: Seq<u8>,
    selected_address: nat,
) -> Seq<ItemView>
    decreases fields.len(),
{
    if fields.len() == 0 {
        seq![]
    } else {
        let field = fields.last();
        let before = file_rows(fields.drop_last(), start_address, bytes, selected_address);
        if start_address <= field.address < start_address + bytes.len() {
            before + seq![
                ItemView::Separator,
                field_row(
                    field_address_text(field),
                    field.label,
                    field_value_text(field, start_address, bytes),
                    field.address == selected_address,
                    joined(tooltip_lines(field), "\n"@),
                    Action::SelectAddress(field.address),
                ),
            ]
        } else {
            before
        }
    }
}

/// The rows of a fixture.
pub open spec fn fixture_rows(rows: Seq<EepromRow>, selected_row: usize) -> Seq<ItemView>
    decreases rows.len(),
{
    if rows.len() == 0 {
        seq![]
    } else {
        let index = rows.len() - 1;
        fixture_rows(rows.drop_last(), selected_row) + seq![
            ItemView::Separator,
            field_row(
                address_text(rows.last().address as nat),
                rows.last().label@,
                byte_text(rows.last().value),
                selected_row == index,
                seq![],
                Action::SelectRow(index as usize),
            ),
        ]
    }
}

/// The table of fields.
pub open spec fn table_items(gui: GuiView) -> Seq<ItemView> {
    seq![
        said(Tone::Heading, "Fields"@),
        ItemView::FieldRow {
            address: "Address"@,
            field: "Field"@,
            value: "Value"@,
            selected: false,
            header: true,
            hover: seq![],
            action: Action::Nothing,
        },
    ] + match gui.loaded_eeprom {
        Some(file) => if shown_fields(gui).len() == 0 {
            seq![
                ItemView::Separator,
                field_row(
                    address_text(shown_address(gui)),
                    "Raw EEPROM byte"@,
                    byte_text(shown_value(gui)),
                    true,
                    seq![],
                    Action::Nothing,
                ),
            ]
        } else {
            file_rows(shown_fields(gui), file.start_address, file.bytes, shown_address(gui))
        },
        None => fixture_rows(chosen_fixture(gui).eeprom_rows@, gui.state.selected_eeprom_row),
    }
}

/// What is said of a write of the selected byte.
pub open spec fn write_items(gui: GuiView) -> Seq<ItemView> {
    if !reaches_usb(gui.platform) {
        seq![
            button("Prepare guarded write of selected byte..."@, false, Action::Nothing),
            plain("Selected-printer EEPROM writes are unavailable on this platform."@),
        ]
    } else if chosen_candidate(gui) is Some {
        seq![
            button(
                "Prepare guarded write of selected byte..."@,
                expected_model(gui) is Some && !gui.operation_running,
                Action::PrepareSelectedWrite,
            ),
            plain(
                "Selected cached field: "@ + shown_field_text(gui) + " at "@ + address_text(
                    shown_address(gui),
                )
                    + ". The worker reads a complete fresh backup and reports the current value before writing."@,
            ),
        ]
    } else {
        seq![
            button("Prepare guarded write of selected byte..."@, false, Action::Nothing),
            plain(
                "Writing requires an explicit selected USB candidate, exact identity/model match, a create-new backup, and a typed confirmation."@,
            ),
        ]
    }
}

/// The bytes in a line of the hex dump.
pub const DUMP_LINE_BYTES: usize = 16;

/// The lines of the hex dump from an offset on.
pub open spec fn dump_lines(
    bytes: Seq<u8>,
    start_address: nat,
    offset: nat,
    selected_address: nat,
) -> Seq<ItemView>
    decreases bytes.len() - offset,
{
    if offset >= bytes.len() {
        seq![]
    } else {
        let end = if offset + DUMP_LINE_BYTES < bytes.len() {
            offset + DUMP_LINE_BYTES
        } else {
            bytes.len() as int
        };
        let address = start_address + offset;
        seq![
            ItemView::DumpLine {
                address,
                bytes: bytes.subrange(offset as int, end),
                selected: if address <= selected_address < start_address + end {
                    Some((selected_address - address) as nat)
                } else {
                    None
                },
            },
        ] + dump_lines(bytes, start_address, end as nat, selected_address)
    }
}

/// The address of the first shown byte.
pub open spec fn shown_start(gui: GuiView) -> nat {
    match gui.loaded_eeprom {
        Some(file) => file.start_address as nat,
        None => 0,
    }
}

/// What is said of the shown bytes.
pub open spec fn image_introduction(gui: GuiView) -> Seq<char> {
    match (gui.loaded_eeprom, chosen_candidate(gui)) {
        (Some(_), Some(_)) => "The most recently saved connected EEPROM image is shown below. It is a private device-specific file; displayed values are not a substitute for the pre-write backup taken by a persistent operation."@,
        (Some(_), None) => "The selected raw EEPROM image is shown below. Choose a model in the tab bar to label known model-specific fields."@,
        (None, _) => "The full 256-byte fixture EEPROM is shown below; no physical EEPROM is read, written, backed up, restored, or reset."@,
    }
}

/// The EEPROM page.
pub open spec fn eeprom_items(gui: GuiView) -> Seq<ItemView> {
    seq![said(Tone::Heading, "EEPROM"@)] + if chosen_candidate(gui) is Some
        && gui.loaded_eeprom is None {
        seq![
            plain("No EEPROM data is available for the selected descriptor-only candidate."@),
            plain(
                "No printer connection has been opened; use the Status tab to explicitly save a complete EEPROM dump first."@,
            ),
        ]
    } else if gui.loaded_eeprom is None && !fixture_shown(gui) {
        seq![
            plain("No EEPROM data is available because no printer source is selected."@),
            plain(
                "Select a descriptor-only candidate or open a raw EEPROM file. Fixtures require launching with --fixtures."@,
            ),
        ]
    } else {
        seq![plain(image_introduction(gui)), ItemView::Space] + table_items(gui) + seq![
            ItemView::Space,
        ] + write_items(gui) + seq![
            ItemView::Separator,
            said(Tone::Heading, "Hex dump"@),
            columns("Address"@, "Bytes"@, "ASCII"@),
        ] + dump_lines(shown_bytes(gui), shown_start(gui), 0, shown_address(gui))
    }
}

proof fn lemma_operation_fields(operations: Seq<OperationView>)
    ensures
        forall|i: int|
            0 <= i < operation_fields(operations).len() ==> (#[trigger] operation_fields(
                operations,
            )[i]).consistent(),
    decreases operations.len(),
{
    if operations.len() > 0 {
        lemma_operation_fields(operations.drop_last());
        let before = operation_fields(operations.drop_last());
        let all = operation_fields(operations);
        assert forall|i: int| 0 <= i < all.len() implies (#[trigger] all[i]).consistent() by {
            if i < before.len() {
                assert(all[i] == before[i]);
            } else {
                assert(all[i] == byte_field(operations.last(), i - before.len()));
            }
        }
    }
}

/// Every field that is shown is as long as its encoding needs.
pub proof fn shown_fields_are_consistent(gui: ReinkGui, index: int)
    requires
        gui.well_formed(),
        0 <= index < shown_fields(gui@).len(),
    ensures
        shown_fields(gui@)[index].consistent(),
{
    if let Some(LoadedView { model: Some(model), .. }) = gui@.loaded_eeprom {
        let settings = gui.state.database@[model];
        assert(valid_spec(settings));
        if settings.read_only_fields.len() == 0 {
            lemma_operation_fields(settings.memory_operations);
        } else {
            assert(valid_field(
                settings.read_only_fields[index],
                settings.memory_low,
                settings.memory_high,
            ));
        }
    }
}

fn empty_text() -> (text: String)
    ensures
        text@ == Seq::<char>::empty(),
{
    let text = String::new();
    proof {
        assert(text@ =~= Seq::<char>::empty());
    }
    text
}

fn show_dump_lines(bytes: &[u8], start_address: usize, selected_address: usize) -> (items: Vec<
    Item,
>)
    requires
        start_address + bytes.len() <= usize::MAX,
    ensures
        item_views(items@) == dump_lines(
            bytes@,
            start_address as nat,
            0,
            selected_address as nat,
        ),
{
    let mut items = no_items();
    let ghost all = dump_lines(bytes@, start_address as nat, 0, selected_address as nat);
    let mut offset: usize = 0;
    proof {
        assert(item_views(items@) + all =~= all);
    }
    while offset < bytes.len()
        invariant
            offset <= bytes.len(),
            start_address + bytes.len() <= usize::MAX,
            item_views(items@) + dump_lines(
                bytes@,
                start_address as nat,
                offset as nat,
                selected_address as nat,
            ) == all,
        decreases bytes.len() - offset,
    {
        let end: usize = if bytes.len() - offset > DUMP_LINE_BYTES {
            offset + DUMP_LINE_BYTES
        } else {
            bytes.len()
        };
        let address: usize = start_address + offset;
        let selected: Option<usize> = if address <= selected_address && selected_address
            < start_address + end {
            Some(selected_address - address)
        } else {
            None
        };
        let line = vstd::slice::slice_to_vec(vstd::slice::slice_subrange(bytes, offset, end));
        let ghost before = item_views(items@);
        let item = Item::DumpLine { address, bytes: line, selected };
        let ghost shown = item@;
        push_item(&mut items, item);
        proof {
            let rest = dump_lines(
                bytes@,
                start_address as nat,
                end as nat,
                selected_address as nat,
            );
            assert(before + (seq![shown] + rest) =~= before.push(shown) + rest);
        }
        offset = end;
    }
    proof {
        assert(item_views(items@) + Seq::<ItemView>::empty() =~= item_views(items@));
    }
    items
}

impl ReinkGui {
    fn show_file_rows(&self, start_address: usize, bytes: &[u8]) -> (items: Vec<Item>)
        requires
            self.well_formed(),
        ensures
            item_views(items@) == file_rows(
                shown_fields(self@),
                start_address,
                bytes@,
                shown_address(self@),
            ),
    {
        let fields = self.file_fields();
        let selected_address: usize = self.selected_address();
        let ghost views = shown_fields(self@);
        let mut items = no_items();
        let mut index: usize = 0;
        proof {
            assert(views.take(0) =~= seq![]);
        }
        while index < fields.len()
            invariant
                self.well_formed(),
                index <= fields@.len(),
                views == shown_fields(self@),
                views == file_field_views(fields@),
                selected_address == shown_address(self@),
                item_views(items@) == file_rows(
                    views.take(index as int),
                    start_address,
                    bytes@,
                    shown_address(self@),
                ),
            decreases fields.len() - index,
        {
            let field = &fields[index];
            proof {
                let longer = views.take(index + 1);
                assert(longer.drop_last() =~= views.take(index as int));
                assert(longer.last() == field@);
                shown_fields_are_consistent(*self, index as int);
            }
            if eeprom_image_offset(start_address, bytes.len(), field.address).is_some() {
                let ghost before = item_views(items@);
                push_item(&mut items, Item::Separator);
                let row = Item::FieldRow {
                    address: eeprom_field_address_label(field),
                    field: field.label.clone(),
                    value: eeprom_field_value(field, start_address, bytes),
                    selected: field.address == selected_address,
                    header: false,
                    hover: eeprom_field_tooltip(field),
                    action: Action::SelectAddress(field.address),
                };
                let ghost shown = row@;
                push_item(&mut items, row);
                proof {
                    assert(item_views(items@) =~= before + seq![ItemView::Separator, shown]);
                }
            }
            index = index + 1;
        }
        proof {
            assert(views.take(index as int) =~= views);
        }
        items
    }

    fn show_fixture_rows(&self) -> (items: Vec<Item>)
        requires
            self.well_formed(),
        ensures
            item_views(items@) == fixture_rows(
                chosen_fixture(self@).eeprom_rows@,
                self@.state.selected_eeprom_row,
            ),
    {
        let fixture = self.state.selected_fixture();
        let ghost rows = chosen_fixture(self@).eeprom_rows@;
        let mut items = no_items();
        let mut index: usize = 0;
        proof {
            assert(rows.take(0) =~= seq![]);
        }
        while index < fixture.eeprom_rows.len()
            invariant
                index <= fixture.eeprom_rows@.len(),
                rows == fixture.eeprom_rows@,
                item_views(items@) == fixture_rows(
                    rows.take(index as int),
                    self@.state.selected_eeprom_row,
                ),
            decreases fixture.eeprom_rows.len() - index,
        {
            let row = &fixture.eeprom_rows[index];
            let ghost before = item_views(items@);
            push_item(&mut items, Item::Separator);
            let shown = Item::FieldRow {
                address: address_label(row.address as usize),
                field: row.label.to_owned(),
                value: byte_label(row.value),
                selected: self.state.selected_eeprom_row_index() == index,
                header: false,
                hover: empty_text(),
                action: Action::SelectRow(index),
            };
            let ghost view = shown@;
            push_item(&mut items, shown);
            proof {
                let longer = rows.take(index + 1);
                assert(longer.drop_last() =~= rows.take(index as int));
                assert(longer.last() == *row);
                assert(item_views(items@) =~= before + seq![ItemView::Separator, view]);
            }
            index = index + 1;
        }
        proof {
            assert(rows.take(index as int) =~= rows);
        }
        items
    }

    fn show_table(&self) -> (items: Vec<Item>)
        requires
            self.well_formed(),
        ensures
            item_views(items@) == table_items(self@),
    {
        let mut items = no_items();
        push_text(&mut items, Tone::Heading, "Fields");
        push_item(
            &mut items,
            Item::FieldRow {
                address: String::from_str("Address"),
                field: String::from_str("Field"),
                value: String::from_str("Value"),
                selected: false,
                header: true,
                hover: empty_text(),
                action: Action::Nothing,
            },
        );
        match &self.loaded_eeprom {
            Some(file) => {
                let fields = self.file_fields();
                proof {
                    assert(fields@.len() == shown_fields(self@).len());
                }
                if fields.len() == 0 {
                    push_item(&mut items, Item::Separator);
                    push_item(
                        &mut items,
                        Item::FieldRow {
                            address: address_label(self.selected_address()),
                            field: String::from_str("Raw EEPROM byte"),
                            value: byte_label(self.selected_value()),
                            selected: true,
                            header: false,
                            hover: empty_text(),
                            action: Action::Nothing,
                        },
                    );
                } else {
                    append_items(
                        &mut items,
                        self.show_file_rows(file.start_address, file.bytes.as_slice()),
                    );
                }
            },
            None => append_items(&mut items, self.show_fixture_rows()),
        }
        proof {
            assert(item_views(items@) =~= table_items(self@));
        }
        items
    }

    fn show_write(&self) -> (items: Vec<Item>)
        requires
            self.well_formed(),
        ensures
            item_views(items@) == write_items(self@),
    {
        let mut items = no_items();
        if !self.platform.has_usb() {
            push_button(
                &mut items,
                "Prepare guarded write of selected byte...",
                false,
                Action::Nothing,
            );
            push_text(
                &mut items,
                Tone::Plain,
                "Selected-printer EEPROM writes are unavailable on this platform.",
            );
        } else if self.selected_usb_candidate().is_some() {
            push_button(
                &mut items,
                "Prepare guarded write of selected byte...",
                self.selected_usb_model().is_some() && !self.operation_running,
                Action::PrepareSelectedWrite,
            );
            push_line(
                &mut items,
                Tone::Plain,
                String::from_str("Selected cached field: ").concat(
                    self.selected_field_label().as_str(),
                ).concat(" at ").concat(address_label(self.selected_address()).as_str()).concat(
                    ". The worker reads a complete fresh backup and reports the current value before writing.",
                ),
            );
        } else {
            push_button(
                &mut items,
                "Prepare guarded write of selected byte...",
                false,
                Action::Nothing,
            );
            push_text(
                &mut items,
                Tone::Plain,
                "Writing requires an explicit selected USB candidate, exact identity/model match, a create-new backup, and a typed confirmation.",
            );
        }
        proof {
            assert(item_views(items@) =~= write_items(self@));
        }
        items
    }

    /// Shows the EEPROM page.
    pub fn eeprom_viewer(&self) -> (items: Vec<Item>)
        requires
            self.well_formed(),
        ensures
            item_views(items@) == eeprom_items(self@),
    {
        let mut items = no_items();
        push_text(&mut items, Tone::Heading, "EEPROM");
        let candidate: bool = self.selected_usb_candidate().is_some();
        let loaded: bool = self.loaded_eeprom.is_some();
        if candidate && !loaded {
            push_text(
                &mut items,
                Tone::Plain,
                "No EEPROM data is available for the selected descriptor-only candidate.",
            );
            push_text(
                &mut items,
                Tone::Plain,
                "No printer connection has been opened; use the Status tab to explicitly save a complete EEPROM dump first.",
            );
        } else if !loaded && !self.fixture_selected() {
            push_text(
                &mut items,
                Tone::Plain,
                "No EEPROM data is available because no printer source is selected.",
            );
            push_text(
                &mut items,
                Tone::Plain,
                "Select a descriptor-only candidate or open a raw EEPROM file. Fixtures require launching with --fixtures.",
            );
        } else {
            let introduction: &str = if loaded && candidate {
                "The most recently saved connected EEPROM image is shown below. It is a private device-specific file; displayed values are not a substitute for the pre-write backup taken by a persistent operation."
            } else if loaded {
                "The selected raw EEPROM image is shown below. Choose a model in the tab bar to label known model-specific fields."
            } else {
                "The full 256-byte fixture EEPROM is shown below; no physical EEPROM is read, written, backed up, restored, or reset."
            };
            push_text(&mut items, Tone::Plain, introduction);
            push_item(&mut items, Item::Space);
            append_items(&mut items, self.show_table());
            push_item(&mut items, Item::Space);
            append_items(&mut items, self.show_write());
            push_item(&mut items, Item::Separator);
            push_text(&mut items, Tone::Heading, "Hex dump");
            push_columns(&mut items, "Address", "Bytes", "ASCII");
            let start: usize = match &self.loaded_eeprom {
                Some(file) => file.start_address,
                None => 0,
            };
            append_items(
                &mut items,
                show_dump_lines(self.eeprom_bytes(), start, self.selected_address()),
            );
        }
        proof {
            assert(item_views(items@) =~= eeprom_items(self@));
        }
        items
    }
}

/// The tools for a candidate.
pub open spec fn candidate_tools(gui: GuiView) -> Seq<ItemView> {
    seq![
        plain(
            "Selected-printer operations are explicit, run on a worker thread, and never run when selecting this candidate."@,
        ),
    ] + if reaches_usb(gui.platform) {
        connected_tools(gui)
    } else {
        unconnected_tools()
    }
}

/// The tools for a candidate where printers cannot be reached over USB.
pub open spec fn unconnected_tools() -> Seq<ItemView> {
    seq![
        said(Tone::Strong, "Selected-printer operations are unavailable on this platform."@),
        button("Save complete EEPROM dump..."@, false, Action::Nothing),
        button("Prepare guarded EEPROM write..."@, false, Action::Nothing),
        button("Choose image and prepare restore..."@, false, Action::Nothing),
        button("Prepare waste reset..."@, false, Action::Nothing),
        button("Prepare platen-pad reset..."@, false, Action::Nothing),
    ]
}

/// The tools for a candidate where printers can be reached over USB.
pub open spec fn connected_tools(gui: GuiView) -> Seq<ItemView> {
    let known = expected_model(gui) is Some;
    let enabled = known && !gui.operation_running;
    (if known {
        seq![]
    } else {
        seq![
            said(
                Tone::Warning,
                "Choose an expected model on the Status tab before enabling connected operations."@,
            ),
        ]
    }) + (if gui.operation_running {
        seq![said(Tone::Strong, "A selected-printer operation is running on a worker thread."@)]
    } else {
        seq![]
    }) + seq![
        ItemView::Space,
        ItemView::GroupStart,
        said(Tone::Heading, "Durable EEPROM dump"@),
        plain(
            "Reads a complete model-bounded image only after an exact D4 identity/model match, then creates a new user-selected private file."@,
        ),
        button("Save complete EEPROM dump..."@, enabled, Action::SaveDump),
        ItemView::GroupEnd,
    ] + seq![
        ItemView::Space,
        ItemView::GroupStart,
        said(Tone::Heading, "Generic EEPROM byte write"@),
        plain(
            "The confirmation dialog validates one model-bounded address/value, requires a create-new full backup, then uses read-back verification and rollback-on-failure."@,
        ),
        button("Prepare guarded EEPROM write..."@, enabled, Action::PrepareWrite),
        ItemView::GroupEnd,
    ] + seq![
        ItemView::Space,
        ItemView::GroupStart,
        said(Tone::Heading, "EEPROM restore"@),
        plain(
            "Select a complete image and a separate new rollback backup. The model range and image length are validated before USB opens."@,
        ),
        button("Choose image and prepare restore..."@, enabled, Action::PrepareRestore),
        ItemView::GroupEnd,
    ] + seq![
        ItemView::Space,
        ItemView::GroupStart,
        said(Tone::Heading, "Model-aware counter reset"@),
        plain(
            "Only explicitly declared model reset bytes are eligible; missing reset metadata is never substituted with zero."@,
        ),
        button(
            "Prepare waste reset..."@,
            enabled,
            Action::PrepareReset(CounterResetTarget::Waste),
        ),
        button(
            "Prepare platen-pad reset..."@,
            enabled,
            Action::PrepareReset(CounterResetTarget::PlatenPad),
        ),
        ItemView::GroupEnd,
    ]
}

/// The tools without a source.
pub open spec fn empty_tools() -> Seq<ItemView> {
    seq![
        plain("No printer selected; fixture validation is unavailable in default real mode."@),
        plain("Launch with --fixtures to select a deterministic fixture."@),
        button("Run validation"@, false, Action::Nothing),
    ]
}

/// How the status of a check is shown.
pub open spec fn status_tone(status: ValidationStatus) -> Tone {
    match status {
        ValidationStatus::Success => Tone::Success,
        ValidationStatus::Blocked => Tone::Warning,
        ValidationStatus::Failure => Tone::Failure,
    }
}

/// The word for the status of a check.
pub open spec fn status_word(status: ValidationStatus) -> Seq<char> {
    match status {
        ValidationStatus::Success => "Success"@,
        ValidationStatus::Blocked => "Blocked"@,
        ValidationStatus::Failure => "Failure"@,
    }
}

/// The rows of a validation report.
pub open spec fn report_rows(report: Seq<ValidationReportItem>) -> Seq<ItemView> {
    Seq::new(
        report.len(),
        |i: int|
            ItemView::ReportRow {
                status: status_word(report[i].status),
                tone: status_tone(report[i].status),
                check: report[i].check@,
                detail: report[i].detail@,
            },
    )
}

/// The validation of a fixture, which a file does not have.
pub open spec fn validation_items(gui: GuiView) -> Seq<ItemView> {
    seq![ItemView::GroupStart, said(Tone::Heading, "Run validation"@)] + (
    if gui.loaded_eeprom is Some {
        seq![
            plain(
                "Unavailable for a raw EEPROM file: no printer model or protocol session is present."@,
            ),
            button("Run validation"@, false, Action::Nothing),
        ]
    } else {
        seq![
            button("Run validation"@, true, Action::RunValidation),
            plain("Runs the selected fixture's deterministic validation scenario."@),
        ] + if gui.show_validation_report {
            seq![ItemView::Space, columns("Status"@, "Check"@, "Detail"@)] + report_rows(
                chosen_fixture(gui).validation_report@,
            )
        } else {
            seq![]
        }
    }) + seq![ItemView::GroupEnd]
}

/// The maintenance that a fixture does not have.
pub open spec fn unavailable_items() -> Seq<ItemView> {
    seq![
        ItemView::Space,
        ItemView::GroupStart,
        said(Tone::Heading, "Waste-ink counter"@),
        plain("Fixture value: 1,048"@),
        button("Reset to zero"@, false, Action::Nothing),
        plain(
            "Fixture resets are intentionally unavailable; selected-printer resets require the guarded controls for a real USB candidate."@,
        ),
        ItemView::GroupEnd,
    ] + seq![
        ItemView::Space,
        ItemView::GroupStart,
        said(Tone::Heading, "EEPROM backup and restore"@),
        button("Back up EEPROM"@, false, Action::Nothing),
        button("Restore EEPROM"@, false, Action::Nothing),
        plain("Backup and restore remain unavailable in fixture-only mode."@),
        ItemView::GroupEnd,
    ] + seq![
        ItemView::Space,
        ItemView::GroupStart,
        said(Tone::Heading, "First-write backup"@),
        plain("Persistent writes require a complete backup and command-specific confirmations."@),
        plain(
            "Fixtures cannot select a USB target or create a backup. Use a real selected candidate for the separately gated controls."@,
        ),
        button("Choose EEPROM backup..."@, false, Action::Nothing),
        plain("GUI backup selection is intentionally unavailable."@),
        ItemView::GroupEnd,
    ]
}

/// The tools page.
pub open spec fn tools_items(gui: GuiView) -> Seq<ItemView> {
    seq![said(Tone::Heading, "Tools"@)] + if chosen_candidate(gui) is Some {
        candidate_tools(gui)
    } else if gui.loaded_eeprom is None && !fixture_shown(gui) {
        empty_tools()
    } else {
        seq![
            plain("Fixture-only maintenance and validation workflows."@),
            ItemView::Space,
        ] + validation_items(gui) + unavailable_items()
    }
}

/// A recorded transfer.
pub open spec fn transfer_item(entry: EntryView) -> ItemView {
    ItemView::Transfer {
        id: entry.id,
        summary: entry.summary,
        detail: "bytes="@ + if entry.hex_bytes.len() == 0 {
            "<empty>"@
        } else {
            entry.hex_bytes
        },
    }
}

/// The pane of the recorded traffic.
pub open spec fn traffic_items(trace: TraceView) -> Seq<ItemView> {
    seq![said(Tone::Heading, "Debug traffic"@)] + (if trace.entries.len() > 0 {
        seq![button("Clear"@, true, Action::ClearTraffic)]
    } else {
        seq![]
    }) + seq![
        ItemView::Check {
            label: "Capture traffic for this session (opt-in)"@,
            checked: trace.capture_enabled,
            action: Action::CaptureTraffic(!trace.capture_enabled),
        },
        plain(
            "Selecting a candidate alone produces no traffic. Transfers are recorded only for an explicit selected-printer operation that starts while this opt-in is enabled; the GUI never exports them."@,
        ),
        ItemView::Space,
    ] + if trace.entries.len() == 0 {
        seq![plain("No traffic captured in this session."@)]
    } else {
        seq![said(Tone::Strong, "Recorded requests and responses"@)] + Seq::new(
            trace.entries.len(),
            |i: int| transfer_item(trace.entries[i]),
        )
    }
}

/// What is told of the last operation.
pub open spec fn result_items(report: ReportView) -> Seq<ItemView> {
    seq![
        said(
            if report.success {
                Tone::Success
            } else {
                Tone::Failure
            },
            report.headline,
        ),
    ] + Seq::new(report.lines.len(), |i: int| plain(report.lines[i])) + seq![ItemView::Space]
}

/// The pane of the shown page, below an error and the result of an operation.
pub open spec fn primary_items(gui: GuiView) -> Seq<ItemView> {
    (match gui.file_error {
        Some(error) => seq![said(Tone::Failure, error), ItemView::Space],
        None => seq![],
    }) + (match gui.usb_operation_result {
        Some(report) => result_items(report),
        None => seq![],
    }) + match gui.state.page {
        Page::Status => status_items(gui),
        Page::Eeprom => eeprom_items(gui),
        Page::Tools => tools_items(gui),
    }
}

/// Adds a group of a heading, an explanation and a button.
fn push_tool(
    items: &mut Vec<Item>,
    heading: &str,
    explanation: &str,
    label: &str,
    enabled: bool,
    action: Action,
)
    ensures
        item_views(final(items)@) == item_views(old(items)@) + seq![
            ItemView::Space,
            ItemView::GroupStart,
            said(Tone::Heading, heading@),
            plain(explanation@),
            button(label@, enabled, action),
            ItemView::GroupEnd,
        ],
{
    push_item(items, Item::Space);
    push_item(items, Item::GroupStart);
    push_text(items, Tone::Heading, heading);
    push_text(items, Tone::Plain, explanation);
    push_button(items, label, enabled, action);
    push_item(items, Item::GroupEnd);
    proof {
        assert(item_views(items@) =~= item_views(old(items)@) + seq![
            ItemView::Space,
            ItemView::GroupStart,
            said(Tone::Heading, heading@),
            plain(explanation@),
            button(label@, enabled, action),
            ItemView::GroupEnd,
        ]);
    }
}

fn show_unavailable() -> (items: Vec<Item>)
    ensures
        item_views(items@) == unavailable_items(),
{
    let mut items = no_items();
    push_item(&mut items, Item::Space);
    push_item(&mut items, Item::GroupStart);
    push_text(&mut items, Tone::Heading, "Waste-ink counter");
    push_text(&mut items, Tone::Plain, "Fixture value: 1,048");
    push_button(&mut items, "Reset to zero", false, Action::Nothing);
    push_text(
        &mut items,
        Tone::Plain,
        "Fixture resets are intentionally unavailable; selected-printer resets require the guarded controls for a real USB candidate.",
    );
    push_item(&mut items, Item::GroupEnd);
    push_item(&mut items, Item::Space);
    push_item(&mut items, Item::GroupStart);
    push_text(&mut items, Tone::Heading, "EEPROM backup and restore");
    push_button(&mut items, "Back up EEPROM", false, Action::Nothing);
    push_button(&mut items, "Restore EEPROM", false, Action::Nothing);
    push_text(
        &mut items,
        Tone::Plain,
        "Backup and restore remain unavailable in fixture-only mode.",
    );
    push_item(&mut items, Item::GroupEnd);
    push_item(&mut items, Item::Space);
    push_item(&mut items, Item::GroupStart);
    push_text(&mut items, Tone::Heading, "First-write backup");
    push_text(
        &mut items,
        Tone::Plain,
        "Persistent writes require a complete backup and command-specific confirmations.",
    );
    push_text(
        &mut items,
        Tone::Plain,
        "Fixtures cannot select a USB target or create a backup. Use a real selected candidate for the separately gated controls.",
    );
    push_button(&mut items, "Choose EEPROM backup...", false, Action::Nothing);
    push_text(&mut items, Tone::Plain, "GUI backup selection is intentionally unavailable.");
    push_item(&mut items, Item::GroupEnd);
    proof {
        assert(item_views(items@) =~= unavailable_items());
    }
    items
}

/// Chooses how the status of a check is shown.
pub fn status_color(status: ValidationStatus) -> (tone: Tone)
    ensures
        tone == status_tone(status),
{
    match status {
        ValidationStatus::Success => Tone::Success,
        ValidationStatus::Blocked => Tone::Warning,
        ValidationStatus::Failure => Tone::Failure,
    }
}

fn show_report(report: &[ValidationReportItem]) -> (items: Vec<Item>)
    ensures
        item_views(items@) == report_rows(report@),
{
    let mut items = no_items();
    let ghost expected = report_rows(report@);
    let mut index: usize = 0;
    proof {
        assert(expected.take(0) =~= seq![]);
    }
    while index < report.len()
        invariant
            index <= report@.len(),
            expected == report_rows(report@),
            item_views(items@) == expected.take(index as int),
        decreases report.len() - index,
    {
        let check = report[index];
        push_item(
            &mut items,
            Item::ReportRow {
                status: check.status.label().to_owned(),
                tone: status_color(check.status),
                check: check.check.to_owned(),
                detail: check.detail.to_owned(),
            },
        );
        proof {
            assert(expected.take(index + 1) =~= expected.take(index as int).push(
                expected[index as int],
            ));
        }
        index = index + 1;
    }
    proof {
        assert(expected.take(index as int) =~= expected);
    }
    items
}

fn show_unconnected_tools() -> (items: Vec<Item>)
    ensures
        item_views(items@) == unconnected_tools(),
{
    let mut items = no_items();
    push_text(
        &mut items,
        Tone::Strong,
        "Selected-printer operations are unavailable on this platform.",
    );
    push_button(&mut items, "Save complete EEPROM dump...", false, Action::Nothing);
    push_button(&mut items, "Prepare guarded EEPROM write...", false, Action::Nothing);
    push_button(&mut items, "Choose image and prepare restore...", false, Action::Nothing);
    push_button(&mut items, "Prepare waste reset...", false, Action::Nothing);
    push_button(&mut items, "Prepare platen-pad reset...", false, Action::Nothing);
    proof {
        assert(item_views(items@) =~= unconnected_tools());
    }
    items
}

fn push_lines(items: &mut Vec<Item>, lines: &[String])
    ensures
        item_views(final(items)@) == item_views(old(items)@) + Seq::new(
            lines@.len(),
            |i: int| plain(texts(lines@)[i]),
        ),
{
    let ghost start = item_views(items@);
    let ghost expected = Seq::new(lines@.len(), |i: int| plain(texts(lines@)[i]));
    let mut index: usize = 0;
    proof {
        assert(start + expected.take(0) =~= start);
    }
    while index < lines.len()
        invariant
            index <= lines@.len(),
            expected == Seq::new(lines@.len(), |i: int| plain(texts(lines@)[i])),
            item_views(items@) == start + expected.take(index as int),
        decreases lines.len() - index,
    {
        push_text(items, Tone::Plain, lines[index].as_str());
        proof {
            assert(start + expected.take(index + 1) =~= (start + expected.take(
                index as int,
            )).push(expected[index as int]));
        }
        index = index + 1;
    }
    proof {
        assert(expected.take(index as int) =~= expected);
    }
}

impl ReinkGui {
    fn show_candidate_tools(&self) -> (items: Vec<Item>)
        requires
            self.well_formed(),
        ensures
            item_views(items@) == candidate_tools(self@),
    {
        let mut items = no_items();
        push_text(
            &mut items,
            Tone::Plain,
            "Selected-printer operations are explicit, run on a worker thread, and never run when selecting this candidate.",
        );
        if self.platform.has_usb() {
            append_items(&mut items, self.show_connected_tools());
        } else {
            append_items(&mut items, show_unconnected_tools());
        }
        proof {
            assert(item_views(items@) =~= candidate_tools(self@));
        }
        items
    }

    fn show_connected_tools(&self) -> (items: Vec<Item>)
        requires
            self.well_formed(),
        ensures
            item_views(items@) == connected_tools(self@),
    {
        let known: bool = self.selected_usb_model().is_some();
        let enabled: bool = known && !self.operation_running;
        let mut items = no_items();
        if !known {
            push_text(
                &mut items,
                Tone::Warning,
                "Choose an expected model on the Status tab before enabling connected operations.",
            );
        }
        if self.operation_running {
            push_text(
                &mut items,
                Tone::Strong,
                "A selected-printer operation is running on a worker thread.",
            );
        }
        push_tool(
            &mut items,
            "Durable EEPROM dump",
            "Reads a complete model-bounded image only after an exact D4 identity/model match, then creates a new user-selected private file.",
            "Save complete EEPROM dump...",
            enabled,
            Action::SaveDump,
        );
        push_tool(
            &mut items,
            "Generic EEPROM byte write",
            "The confirmation dialog validates one model-bounded address/value, requires a create-new full backup, then uses read-back verification and rollback-on-failure.",
            "Prepare guarded EEPROM write...",
            enabled,
            Action::PrepareWrite,
        );
        push_tool(
            &mut items,
            "EEPROM restore",
            "Select a complete image and a separate new rollback backup. The model range and image length are validated before USB opens.",
            "Choose image and prepare restore...",
            enabled,
            Action::PrepareRestore,
        );
        push_item(&mut items, Item::Space);
        push_item(&mut items, Item::GroupStart);
        push_text(&mut items, Tone::Heading, "Model-aware counter reset");
        push_text(
            &mut items,
            Tone::Plain,
            "Only explicitly declared model reset bytes are eligible; missing reset metadata is never substituted with zero.",
        );
        push_button(
            &mut items,
            "Prepare waste reset...",
            enabled,
            Action::PrepareReset(CounterResetTarget::Waste),
        );
        push_button(
            &mut items,
            "Prepare platen-pad reset...",
            enabled,
            Action::PrepareReset(CounterResetTarget::PlatenPad),
        );
        push_item(&mut items, Item::GroupEnd);
        proof {
            assert(item_views(items@) =~= connected_tools(self@));
        }
        items
    }

    fn show_validation(&self) -> (items: Vec<Item>)
        requires
            self.well_formed(),
        ensures
            item_views(items@) == validation_items(self@),
    {
        let mut items = no_items();
        push_item(&mut items, Item::GroupStart);
        push_text(&mut items, Tone::Heading, "Run validation");
        if self.loaded_eeprom.is_some() {
            push_text(
                &mut items,
                Tone::Plain,
                "Unavailable for a raw EEPROM file: no printer model or protocol session is present.",
            );
            push_button(&mut items, "Run validation", false, Action::Nothing);
        } else {
            push_button(&mut items, "Run validation", true, Action::RunValidation);
            push_text(
                &mut items,
                Tone::Plain,
                "Runs the selected fixture's deterministic validation scenario.",
            );
            if self.show_validation_report {
                push_item(&mut items, Item::Space);
                push_columns(&mut items, "Status", "Check", "Detail");
                append_items(
                    &mut items,
                    show_report(self.state.selected_fixture().validation_report.as_slice()),
                );
            }
        }
        push_item(&mut items, Item::GroupEnd);
        proof {
            assert(item_views(items@) =~= validation_items(self@));
        }
        items
    }

    /// Shows the tools page.
    pub fn tools(&self) -> (items: Vec<Item>)
        requires
            self.well_formed(),
        ensures
            item_views(items@) == tools_items(self@),
    {
        let mut items = no_items();
        push_text(&mut items, Tone::Heading, "Tools");
        if self.selected_usb_candidate().is_some() {
            append_items(&mut items, self.show_candidate_tools());
        } else if self.loaded_eeprom.is_none() && !self.fixture_selected() {
            push_text(
                &mut items,
                Tone::Plain,
                "No printer selected; fixture validation is unavailable in default real mode.",
            );
            push_text(
                &mut items,
                Tone::Plain,
                "Launch with --fixtures to select a deterministic fixture.",
            );
            push_button(&mut items, "Run validation", false, Action::Nothing);
        } else {
            push_text(
                &mut items,
                Tone::Plain,
                "Fixture-only maintenance and validation workflows.",
            );
            push_item(&mut items, Item::Space);
            append_items(&mut items, self.show_validation());
            append_items(&mut items, show_unavailable());
        }
        proof {
            assert(item_views(items@) =~= tools_items(self@));
        }
        items
    }

    /// Shows the recorded traffic.
    pub fn debug_traffic_pane(&self) -> (items: Vec<Item>)
        ensures
            item_views(items@) == traffic_items(self@.debug_traffic),
    {
        let ghost trace = self@.debug_traffic;
        let mut items = no_items();
        let count: usize = self.debug_traffic.count();
        let checked: bool = self.debug_traffic.capture_enabled();
        push_text(&mut items, Tone::Heading, "Debug traffic");
        if count > 0 {
            push_button(&mut items, "Clear", true, Action::ClearTraffic);
        }
        push_item(
            &mut items,
            Item::Check {
                label: String::from_str("Capture traffic for this session (opt-in)"),
                checked,
                action: Action::CaptureTraffic(!checked),
            },
        );
        push_text(
            &mut items,
            Tone::Plain,
            "Selecting a candidate alone produces no traffic. Transfers are recorded only for an explicit selected-printer operation that starts while this opt-in is enabled; the GUI never exports them.",
        );
        push_item(&mut items, Item::Space);
        if count == 0 {
            push_text(&mut items, Tone::Plain, "No traffic captured in this session.");
            proof {
                assert(item_views(items@) =~= traffic_items(trace));
            }
            return items;
        }
        push_text(&mut items, Tone::Strong, "Recorded requests and responses");
        let ghost start = item_views(items@);
        let ghost expected = Seq::new(
            trace.entries.len(),
            |i: int| transfer_item(trace.entries[i]),
        );
        let entries = self.debug_traffic.entries();
        let mut index: usize = 0;
        proof {
            assert(start + expected.take(0) =~= start);
        }
        while index < entries.len()
            invariant
                index <= entries@.len() == trace.entries.len(),
                expected == Seq::new(
                    trace.entries.len(),
                    |i: int| transfer_item(trace.entries[i]),
                ),
                forall|i: int|
                    0 <= i < entries@.len() ==> (#[trigger] entries@[i])@ == trace.entries[i],
                item_views(items@) == start + expected.take(index as int),
            decreases entries.len() - index,
        {
            let entry: &DebugTrafficEntry = entries[index];
            proof {
                assert(entries@[index as int]@ == trace.entries[index as int]);
            }
            let bytes: &str = if entry.hex_bytes().unicode_len() == 0 {
                "<empty>"
            } else {
                entry.hex_bytes()
            };
            push_item(
                &mut items,
                Item::Transfer {
                    id: entry.id(),
                    summary: entry.summary().to_owned(),
                    detail: String::from_str("bytes=").concat(bytes),
                },
            );
            proof {
                assert(start + expected.take(index + 1) =~= (start + expected.take(
                    index as int,
                )).push(expected[index as int]));
            }
            index = index + 1;
        }
        proof {
            assert(expected.take(index as int) =~= expected);
            assert(item_views(items@) =~= traffic_items(trace));
        }
        items
    }

    /// Shows the page, below an error and the result of an operation.
    pub fn primary_content_pane(&self) -> (items: Vec<Item>)
        requires
            self.well_formed(),
        ensures
            item_views(items@) == primary_items(self@),
    {
        let mut items = no_items();
        if let Some(error) = &self.file_error {
            push_text(&mut items, Tone::Failure, error.as_str());
            push_item(&mut items, Item::Space);
        }
        if let Some(report) = &self.usb_operation_result {
            let tone = if report.success {
                Tone::Success
            } else {
                Tone::Failure
            };
            push_text(&mut items, tone, report.headline.as_str());
            push_lines(&mut items, report.lines.as_slice());
            push_item(&mut items, Item::Space);
        }
        match self.state.page() {
            Page::Status => append_items(&mut items, self.status()),
            Page::Eeprom => append_items(&mut items, self.eeprom_viewer()),
            Page::Tools => append_items(&mut items, self.tools()),
        }
        proof {
            assert(item_views(items@) =~= primary_items(self@));
        }
        items
    }
}

/// A write that waits for its confirmation, of what has been typed so far.
pub open spec fn waiting_write(address: Seq<char>, value: Seq<char>) -> PendingView {
    PendingView::Write { address, value, backup_file: None, confirmation: seq![] }
}

/// The state after something has been pressed. What needs a file, a printer or
/// the choice of a person does not change the state by itself.
pub open spec fn pressed(gui: GuiView, action: Action) -> GuiView {
    match action {
        Action::ShowPage(page) => GuiView { state: GuiState { page, ..gui.state }, ..gui },
        Action::SelectCandidate(index) => candidate_selected(gui, index),
        Action::SelectFixture(index) => fixture_chosen(gui, index),
        Action::SelectAddress(address) => address_selected(gui, address),
        Action::SelectRow(index) => if index < chosen_fixture(gui).eeprom_rows@.len() {
            GuiView { state: GuiState { selected_eeprom_row: index, ..gui.state }, ..gui }
        } else {
            gui
        },
        Action::RefreshCandidates => GuiView {
            usb_scan_status: begun_scan(gui.platform),
            ..gui
        },
        Action::PrepareSelectedWrite => prepared_operation(
            gui,
            waiting_write(address_text(shown_address(gui)), byte_text(shown_value(gui))),
        ),
        Action::PrepareWrite => prepared_operation(gui, waiting_write(seq![], seq![])),
        Action::PrepareRestore => prepared_operation(
            gui,
            PendingView::Restore {
                restore_image: None,
                backup_file: None,
                confirmation: seq![],
            },
        ),
        Action::PrepareReset(target) => prepared_operation(
            gui,
            PendingView::Reset { target, backup_file: None, confirmation: seq![] },
        ),
        Action::RunValidation => GuiView { show_validation_report: true, ..gui },
        Action::Cancel => GuiView { pending_usb_operation: None, ..gui },
        Action::ClearTraffic => GuiView {
            debug_traffic: decoders_reset(TraceView { entries: seq![], ..gui.debug_traffic }),
            ..gui
        },
        Action::CaptureTraffic(enabled) => GuiView {
            debug_traffic: TraceView { capture_enabled: enabled, ..gui.debug_traffic },
            ..gui
        },
        _ => gui,
    }
}

impl ReinkGui {
    /// Takes over that something has been pressed.
    pub fn press(&mut self, action: Action)
        requires
            old(self).well_formed(),
        ensures
            final(self).well_formed(),
            final(self)@ == pressed(old(self)@, action),
    {
        match action {
            Action::ShowPage(page) => self.navigate_to(page),
            Action::SelectCandidate(index) => self.select_candidate(index),
            Action::SelectFixture(index) => self.select_fixture(index),
            Action::SelectAddress(address) => self.select_eeprom_address(address),
            Action::SelectRow(index) => self.state.select_eeprom_row(index),
            Action::RefreshCandidates => self.refresh_usb_candidates(),
            Action::PrepareSelectedWrite => {
                let pending = PendingUsbOperation::Write {
                    address: address_label(self.selected_address()),
                    value: byte_label(self.selected_value()),
                    backup_file: None,
                    confirmation: empty_text(),
                };
                self.prepare_operation(pending);
            },
            Action::PrepareWrite => self.prepare_operation(
                PendingUsbOperation::Write {
                    address: empty_text(),
                    value: empty_text(),
                    backup_file: None,
                    confirmation: empty_text(),
                },
            ),
            Action::PrepareRestore => self.prepare_operation(
                PendingUsbOperation::Restore {
                    restore_image: None,
                    backup_file: None,
                    confirmation: empty_text(),
                },
            ),
            Action::PrepareReset(target) => self.prepare_operation(
                PendingUsbOperation::Reset {
                    target,
                    backup_file: None,
                    confirmation: empty_text(),
                },
            ),
            Action::RunValidation => self.run_validation(),
            Action::Cancel => self.cancel_operation(),
            Action::ClearTraffic => self.debug_traffic.clear(),
            Action::CaptureTraffic(enabled) => self.debug_traffic.set_capture_enabled(enabled),
            Action::OpenFile | Action::ReadStatus | Action::SaveDump => {},
            Action::ChooseImage | Action::ChooseBackup | Action::Run | Action::Nothing => {},
        }
    }
}

/// Where printers cannot be reached over USB, nothing that is pressed brings a
/// search, a candidate or an operation, no operation starts, and no button that
/// needs a printer can be pressed.
pub proof fn platforms_without_usb_stay_without(gui: GuiView, action: Action)
    requires
        !reaches_usb(gui.platform),
        without_usb(gui),
    ensures
        pressed(gui, action).platform == gui.platform,
        without_usb(pressed(gui, action)),
        operation_started(gui) == (gui, false),
        source_bar_items(gui)[1] == button(
            "Refresh USB candidates"@,
            false,
            Action::RefreshCandidates,
        ),
        write_items(gui)[0] == button(
            "Prepare guarded write of selected byte..."@,
            false,
            Action::Nothing,
        ),
{
}

/// Nothing that is pressed starts an operation by itself.
pub proof fn presses_start_nothing(gui: GuiView, action: Action)
    ensures
        pressed(gui, action).operation_running == gui.operation_running,
        pressed(gui, action).debug_traffic.entries.len() <= gui.debug_traffic.entries.len(),
{
}

/// Every byte of an image stands in the hex dump: sixteen to a line, in order, each line
/// at the address of its first byte. The selected byte is marked where it stands.
pub proof fn dumps_show_every_byte(
    bytes: Seq<u8>,
    start_address: nat,
    offset: nat,
    selected_address: nat,
    line: int,
    place: int,
)
    requires
        0 <= line,
        0 <= place < 16,
        offset + 16 * line + place < bytes.len(),
    ensures
        line < dump_lines(bytes, start_address, offset, selected_address).len(),
        dump_lines(bytes, start_address, offset, selected_address)[line] matches ItemView::DumpLine {
            address,
            bytes: shown,
            selected,
        } && address == start_address + offset + 16 * line && place < shown.len() && shown.len()
            <= 16 && shown[place] == bytes[offset + 16 * line + place] && (selected_address == address
            + place ==> selected == Some(place as nat)) && (selected_address < address
            || selected_address >= address + 16 ==> selected is None),
    decreases line,
{
    if line > 0 {
        dumps_show_every_byte(
            bytes,
            start_address,
            offset + 16,
            selected_address,
            line - 1,
            place,
        );
        assert(dump_lines(bytes, start_address, offset, selected_address)[line] == dump_lines(
            bytes,
            start_address,
            offset + 16,
            selected_address,
        )[line - 1]);
    }
}

/// What one more field adds to the table of an image: a row with its addresses, its name
/// and its value, which selects its first address; nothing where the image does not hold
/// that address.
pub proof fn fields_are_listed_one_by_one(
    fields: Seq<FileFieldView>,
    field: FileFieldView,
    start_address: usize,
    bytes: Seq<u8>,
    selected_address: nat,
)
    ensures
        ({
            let before = file_rows(fields, start_address, bytes, selected_address);
            let after = file_rows(fields.push(field), start_address, bytes, selected_address);
            &&& file_rows(seq![], start_address, bytes, selected_address).len() == 0
            &&& !(start_address <= field.address < start_address + bytes.len()) ==> after == before
            &&& start_address <= field.address < start_address + bytes.len() ==> {
                &&& after.len() == before.len() + 2
                &&& after.take(before.len() as int) == before
                &&& after[before.len() as int] == ItemView::Separator
                &&& after.last() matches ItemView::FieldRow {
                    address,
                    field: label,
                    value,
                    selected,
                    action,
                    ..
                } && address == field_address_text(field) && label == field.label && value
                    == field_value_text(field, start_address, bytes) && selected == (
                field.address == selected_address) && action == Action::SelectAddress(
                    field.address,
                )
            }
        }),
{
    assert(fields.push(field).drop_last() =~= fields);
    let before = file_rows(fields, start_address, bytes, selected_address);
    let after = file_rows(fields.push(field), start_address, bytes, selected_address);
    if start_address <= field.address < start_address + bytes.len() {
        assert(after.take(before.len() as int) =~= before);
    }
}

/// What one more row adds to the table of a fixture: its address, its name and its value.
pub proof fn rows_are_listed_one_by_one(
    rows: Seq<EepromRow>,
    row: EepromRow,
    selected_row: usize,
)
    requires
        rows.len() < usize::MAX,
    ensures
        ({
            let before = fixture_rows(rows, selected_row);
            let after = fixture_rows(rows.push(row), selected_row);
            &&& after.len() == before.len() + 2
            &&& after.take(before.len() as int) == before
            &&& after.last() matches ItemView::FieldRow {
                address,
                field,
                value,
                selected,
                action,
                ..
            } && address == "0x"@ + hex_text(row.address as nat, 4, true) && field == row.label@
                && value == "0x"@ + hex_text(row.value as nat, 2, true) && selected == (selected_row
                == rows.len()) && action == Action::SelectRow(rows.len() as usize)
        }),
{
    assert(rows.push(row).drop_last() =~= rows);
    assert(fixture_rows(rows.push(row), selected_row).take(
        fixture_rows(rows, selected_row).len() as int,
    ) =~= fixture_rows(rows, selected_row));
}

/// How a candidate is listed: the vendor before the product, and behind them the bus, the
/// address, the interface and its alternate setting.
pub proof fn candidates_are_described(
    candidate: CandidateView,
    bus: u8,
    address: u8,
    interface: u8,
    setting: u8,
)
    requires
        candidate.bus_number == Some(bus),
        candidate.device_address == Some(address),
        candidate.interface_number == Some(interface),
        candidate.alternate_setting == Some(setting),
    ensures
        candidate_text(candidate) == candidate.alias + " — "@ + (hex_text(
            candidate.vendor_id as nat,
            4,
            true,
        ) + ":"@ + hex_text(candidate.product_id as nat, 4, true)) + ", bus "@ + dec_text(
            bus as nat,
        ) + ", address "@ + dec_text(address as nat) + ", interface "@ + dec_text(interface as nat)
            + " alt "@ + dec_text(setting as nat),
{
}

/// The recorded transfers are listed last, in the order of the trace, each with its own
/// summary and its own bytes.
pub proof fn transfers_are_listed_in_order(trace: TraceView, index: int)
    requires
        0 <= index < trace.entries.len(),
    ensures
        ({
            let shown = traffic_items(trace);
            shown[shown.len() - trace.entries.len() + index] matches ItemView::Transfer {
                id,
                summary,
                detail,
            } && id == trace.entries[index].id && summary == trace.entries[index].summary && (
            trace.entries[index].hex_bytes.len() > 0 ==> detail == "bytes="@
                + trace.entries[index].hex_bytes)
        }),
{
}

/// What pressing does: a page that is pressed is shown, what is prepared waits with what was
/// shown, and without a backup or a confirmation, and cancelling ends the wait.
pub proof fn presses_do_what_they_say(gui: GuiView, page: Page, target: CounterResetTarget)
    requires
        reaches_usb(gui.platform),
    ensures
        pressed(gui, Action::ShowPage(page)).state.page == page,
        pressed(gui, Action::PrepareSelectedWrite).pending_usb_operation matches Some(
            PendingView::Write { address, value, backup_file, confirmation },
        ) && address == "0x"@ + hex_text(shown_address(gui), 4, true) && value == "0x"@ + hex_text(
            shown_value(gui) as nat,
            2,
            true,
        ) && backup_file is None && confirmation.len() == 0,
        pressed(gui, Action::PrepareReset(target)).pending_usb_operation matches Some(
            PendingView::Reset { target: waiting, backup_file, confirmation },
        ) && waiting == target && backup_file is None && confirmation.len() == 0,
        pressed(gui, Action::PrepareRestore).pending_usb_operation matches Some(
            PendingView::Restore { restore_image, backup_file, confirmation },
        ) && restore_image is None && backup_file is None && confirmation.len() == 0,
        pressed(gui, Action::Cancel).pending_usb_operation is None,
        pressed(gui, Action::ClearTraffic).debug_traffic.entries.len() == 0,
        pressed(gui, Action::CaptureTraffic(true)).debug_traffic.capture_enabled,
        !pressed(gui, Action::CaptureTraffic(false)).debug_traffic.capture_enabled,
        pressed(gui, Action::CaptureTraffic(false)).debug_traffic.entries
            == gui.debug_traffic.entries,
{
}

/// Each choice of a source selects that source: pressing the choice of a candidate, or of a
/// fixture, makes it the one that is selected.
pub proof fn choices_select_what_they_show(gui: GuiView, index: usize)
    ensures
        index < gui.usb_candidates.len() ==> (candidate_choices(
            gui,
        )[index as int] matches ItemView::Choice { label, action, .. } && label == candidate_text(
            gui.usb_candidates[index as int],
        ) && chosen_candidate(pressed(gui, action)) == Some(gui.usb_candidates[index as int])),
        index < gui.state.fixtures@.len() ==> (fixture_choices(
            gui,
        )[index as int] matches ItemView::Choice { label, action, .. } && label
            == gui.state.fixtures@[index as int].label@ && pressed(gui, action).selected_fixture
            == Some(index) && chosen_fixture(pressed(gui, action))
            == gui.state.fixtures@[index as int] && chosen_candidate(pressed(gui, action)) is None
            && pressed(gui, action).loaded_eeprom is None),
{
}

/// The checks of a report stand in their order, each with its own status and detail.
pub proof fn checks_stand_in_order(report: Seq<ValidationReportItem>, index: int)
    requires
        0 <= index < report.len(),
    ensures
        report_rows(report).len() == report.len(),
        report_rows(report)[index] matches ItemView::ReportRow { status, tone, check, detail }
            && check == report[index].check@ && detail == report[index].detail@ && match report[index].status {
            ValidationStatus::Success => status == "Success"@ && tone == Tone::Success,
            ValidationStatus::Blocked => status == "Blocked"@ && tone == Tone::Warning,
            ValidationStatus::Failure => status == "Failure"@ && tone == Tone::Failure,
        },
{
}

} // verus!
