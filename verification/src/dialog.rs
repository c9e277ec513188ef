//! The dialog in which an operation on the selected printer is confirmed.
//!
//! The dialog itself starts nothing. Its run button is enabled only when
//! everything that the operation needs has been given, with the exact
//! confirmation.
use crate::arguments::{
    EEPROM_COUNTER_RESET_CONFIRMATION, EEPROM_RESTORE_CONFIRMATION, EEPROM_WRITE_CONFIRMATION,
};
use crate::epson::{target_name, CounterResetTarget, EpsonSpec, SpecView};
use crate::items::{
    append_items, button, item_views, no_items, plain, push_button, push_item, push_line,
    push_text, said, Action, Entry, Item, ItemView, Tone,
};
use crate::platform::reaches_usb;
use crate::report::string_text;
use crate::screen::{
    chosen_candidate, expected_model, preflight_view, GuiView, PendingUsbOperation, PendingView,
    PreflightView, ReinkGui, RestoreImagePreflight,
};
use crate::selected::UsbOperationRequest;
use crate::session::{declared_counter_reset_updates, reset_updates};
use crate::text::{dec, dec_text, hex_text};
use crate::view::{
    address_label, address_text, byte_label, byte_text, confirmation_matches, format_updates,
    parse_u16_input, parse_u8_input, typed_number, typed_numbers_are_read, typed_refusal,
    values_text,
};
use vstd::prelude::*;

verus! {

/// The title of the dialog.
pub open spec fn title_text(pending: PendingView) -> Seq<char> {
    match pending {
        PendingView::Write { .. } => "Confirm guarded EEPROM write"@,
        PendingView::Restore { .. } => "Confirm guarded EEPROM restore"@,
        PendingView::Reset { target, .. } => match target {
            CounterResetTarget::Waste => "Confirm guarded waste-counter reset"@,
            CounterResetTarget::PlatenPad => "Confirm guarded platen-pad reset"@,
        },
    }
}

/// The confirmation that an operation asks for.
pub open spec fn required_words(pending: PendingView) -> Seq<char> {
    match pending {
        PendingView::Write { .. } => EEPROM_WRITE_CONFIRMATION@,
        PendingView::Restore { .. } => EEPROM_RESTORE_CONFIRMATION@,
        PendingView::Reset { .. } => EEPROM_COUNTER_RESET_CONFIRMATION@,
    }
}

/// What has been typed as the confirmation.
pub open spec fn typed_words(pending: PendingView) -> Seq<char> {
    match pending {
        PendingView::Write { confirmation, .. } => confirmation,
        PendingView::Restore { confirmation, .. } => confirmation,
        PendingView::Reset { confirmation, .. } => confirmation,
    }
}

/// The path that has been chosen for the backup.
pub open spec fn chosen_backup(pending: PendingView) -> Option<Seq<char>> {
    match pending {
        PendingView::Write { backup_file, .. } => backup_file,
        PendingView::Restore { backup_file, .. } => backup_file,
        PendingView::Reset { backup_file, .. } => backup_file,
    }
}

/// The update that has been typed, or what is wrong with it.
pub open spec fn typed_update(settings: SpecView, address: Seq<char>, value: Seq<char>) -> Result<
    (u16, u8),
    Seq<char>,
> {
    match (typed_number(address, 0xffff), typed_number(value, 0xff)) {
        (None, _) => Err(
            typed_refusal(
                address,
                "Enter an EEPROM address."@,
                "Invalid hexadecimal EEPROM address."@,
                "Invalid decimal EEPROM address."@,
            ),
        ),
        (Some(_), None) => Err(
            typed_refusal(
                value,
                "Enter an EEPROM byte value."@,
                "Invalid hexadecimal EEPROM byte value."@,
                "Invalid decimal EEPROM byte value."@,
            ),
        ),
        (Some(address), Some(value)) => if settings.memory_low <= address <= settings.memory_high {
            Ok((address as u16, value as u8))
        } else {
            Err("Address "@ + address_text(address) + " is outside the selected model range."@)
        },
    }
}

/// What the operation writes is known and valid.
pub open spec fn content_ready(settings: SpecView, pending: PendingView) -> bool {
    match pending {
        PendingView::Write { address, value, .. } => typed_update(settings, address, value) is Ok,
        PendingView::Restore { restore_image, .. } => restore_image matches Some(image)
            && image.result is Ok,
        PendingView::Reset { target, .. } => reset_updates(settings, target) is Ok,
    }
}

/// The operation can be run: its content is valid, a backup has been chosen, and
/// the confirmation is exact.
pub open spec fn can_run(settings: SpecView, pending: PendingView) -> bool {
    &&& content_ready(settings, pending)
    &&& chosen_backup(pending) is Some
    &&& typed_words(pending) == required_words(pending)
}

/// The settings of the expected model of the selected candidate.
pub open spec fn expected_settings_of(gui: GuiView) -> Option<SpecView> {
    match expected_model(gui) {
        Some(model) => Some(gui.state.database@[model]),
        None => None,
    }
}

/// The request that an operation comes to.
pub open spec fn request_of(
    settings: SpecView,
    pending: PendingView,
    request: UsbOperationRequest,
) -> bool {
    match (pending, request) {
        (
            PendingView::Write { address, value, backup_file, .. },
            UsbOperationRequest::Write { updates, backup_file: path },
        ) => {
            &&& typed_update(settings, address, value) == Ok::<(u16, u8), Seq<char>>(updates@[0])
            &&& updates@.len() == 1
            &&& backup_file == Some(path@)
        },
        (
            PendingView::Restore { restore_image, backup_file, .. },
            UsbOperationRequest::Restore { image, backup_file: path },
        ) => {
            &&& restore_image matches Some(chosen) && chosen.result matches Ok(found) && found.0
                == image@
            &&& backup_file == Some(path@)
        },
        (
            PendingView::Reset { target, backup_file, .. },
            UsbOperationRequest::Reset { target: asked, backup_file: path },
        ) => target == asked && backup_file == Some(path@),
        _ => false,
    }
}

/// What is said of the target and the model.
pub open spec fn header_items(gui: GuiView) -> Seq<ItemView> {
    seq![
        said(Tone::Strong, "This dialog does not start an operation by itself."@),
        plain(
            "The worker will re-read the exact D4 identity, require it to match this expected model, create and sync a new complete backup, then perform the confirmed action."@,
        ),
        ItemView::Space,
        plain(
            "Selected target: "@ + match chosen_candidate(gui) {
                Some(candidate) => candidate.alias,
                None => "no selected USB candidate"@,
            },
        ),
        plain(
            "Expected model: "@ + match expected_model(gui) {
                Some(model) => model,
                None => "not selected"@,
            },
        ),
    ]
}

/// What is said of the backup.
pub open spec fn backup_items(backup_file: Option<Seq<char>>) -> Seq<ItemView> {
    seq![button("Choose new complete backup..."@, true, Action::ChooseBackup)] + match backup_file {
        Some(path) => seq![
            said(Tone::Monospace, "New backup path: "@ + path),
            plain("The worker uses create-new semantics and rejects an existing path."@),
        ],
        None => seq![
            said(
                Tone::Warning,
                "Choose a new complete backup path before this persistent operation can run."@,
            ),
        ],
    }
}

/// What is said of the confirmation.
pub open spec fn confirmation_items(
    confirmation: Seq<char>,
    required: Seq<char>,
    action: Seq<char>,
) -> Seq<ItemView> {
    seq![
        plain("Type this exact confirmation for the "@ + action + ":"@),
        said(Tone::Monospace, required),
        ItemView::Edit {
            entry: Entry::Confirmation,
            label: seq![],
            hint: seq![],
            text: confirmation,
        },
    ] + if confirmation.len() > 0 && confirmation != required {
        seq![said(Tone::Failure, "Confirmation does not exactly match."@)]
    } else {
        seq![]
    }
}

/// The buttons at the end.
pub open spec fn action_items(enabled: bool, label: Seq<char>) -> Seq<ItemView> {
    seq![
        ItemView::Separator,
        button("Cancel"@, true, Action::Cancel),
        button(label, enabled, Action::Run),
    ]
}

/// What is said of the content of an operation.
pub open spec fn content_items(settings: SpecView, pending: PendingView) -> Seq<ItemView> {
    seq![said(Tone::Heading, "Preflight"@)] + match pending {
        PendingView::Write { address, value, .. } => seq![
            ItemView::Edit {
                entry: Entry::Address,
                label: "Address"@,
                hint: "0x000C or decimal"@,
                text: address,
            },
            ItemView::Edit {
                entry: Entry::Value,
                label: "Value"@,
                hint: "0x00 or decimal"@,
                text: value,
            },
            match typed_update(settings, address, value) {
                Ok(update) => plain(
                    "Requested update: "@ + address_text(update.0 as nat) + " = "@ + byte_text(
                        update.1,
                    )
                        + ". The fresh complete backup provides the current value immediately before writing."@,
                ),
                Err(error) => said(Tone::Failure, error),
            },
        ],
        PendingView::Restore { restore_image, .. } => seq![
            button("Choose complete EEPROM image..."@, true, Action::ChooseImage),
            match restore_image {
                Some(image) => said(Tone::Monospace, image.path),
                None => plain("No restore image selected."@),
            },
        ] + match restore_image {
            Some(image) => match image.result {
                Ok(found) => seq![
                    plain(
                        "Image validation succeeded: "@ + dec_text(found.1)
                            + " model-bounded byte(s) will be restored. A separate fresh current-value backup is still required."@,
                    ),
                ],
                Err(error) => seq![said(Tone::Failure, error)],
            },
            None => seq![],
        },
        PendingView::Reset { target, .. } => seq![
            match reset_updates(settings, target) {
                Ok(updates) => plain(
                    "Declared "@ + target_name(target) + " bytes only: "@ + values_text(updates)
                        + "."@,
                ),
                Err(error) => said(Tone::Failure, error),
            },
            plain(
                "The worker captures the current values for these bytes from a fresh full backup before applying this semantic reset."@,
            ),
        ],
    }
}

/// What the confirmation of an operation is asked for.
pub open spec fn action_text(pending: PendingView) -> Seq<char> {
    match pending {
        PendingView::Write { .. } => "EEPROM write"@,
        PendingView::Restore { .. } => "EEPROM restore"@,
        PendingView::Reset { .. } => "declared counter reset"@,
    }
}

/// The label of the run button.
pub open spec fn run_text(pending: PendingView) -> Seq<char> {
    match pending {
        PendingView::Write { .. } => "Run confirmed EEPROM write"@,
        PendingView::Restore { .. } => "Run confirmed EEPROM restore"@,
        PendingView::Reset { target, .. } => "Run confirmed "@ + target_name(target),
    }
}

/// Everything that the dialog shows for an operation.
pub open spec fn dialog_items(gui: GuiView, pending: PendingView) -> Seq<ItemView> {
    match expected_settings_of(gui) {
        None => header_items(gui) + seq![
            said(
                Tone::Failure,
                "The expected model is no longer valid for this candidate. Close this dialog and select it again on Status."@,
            ),
        ],
        Some(settings) => header_items(gui) + seq![
            plain(
                "Model EEPROM range: "@ + address_text(settings.memory_low as nat) + "..="@
                    + address_text(settings.memory_high as nat),
            ),
            ItemView::Separator,
        ] + content_items(settings, pending) + backup_items(chosen_backup(pending))
            + confirmation_items(
            typed_words(pending),
            required_words(pending),
            action_text(pending),
        ) + action_items(can_run(settings, pending), run_text(pending)),
    }
}

impl PendingUsbOperation {
    pub fn title(&self) -> (title: &'static str)
        ensures
            title@ == title_text(self@),
    {
        match self {
            PendingUsbOperation::Write { .. } => "Confirm guarded EEPROM write",
            PendingUsbOperation::Restore { .. } => "Confirm guarded EEPROM restore",
            PendingUsbOperation::Reset { target, .. } => match target {
                CounterResetTarget::Waste => "Confirm guarded waste-counter reset",
                CounterResetTarget::PlatenPad => "Confirm guarded platen-pad reset",
            },
        }
    }

    fn required(&self) -> (words: &'static str)
        ensures
            words@ == required_words(self@),
    {
        match self {
            PendingUsbOperation::Write { .. } => EEPROM_WRITE_CONFIRMATION,
            PendingUsbOperation::Restore { .. } => EEPROM_RESTORE_CONFIRMATION,
            PendingUsbOperation::Reset { .. } => EEPROM_COUNTER_RESET_CONFIRMATION,
        }
    }

    fn typed(&self) -> (words: &String)
        ensures
            words@ == typed_words(self@),
    {
        match self {
            PendingUsbOperation::Write { confirmation, .. } => confirmation,
            PendingUsbOperation::Restore { confirmation, .. } => confirmation,
            PendingUsbOperation::Reset { confirmation, .. } => confirmation,
        }
    }

    fn backup(&self) -> (path: &Option<String>)
        ensures
            string_text(*path) == chosen_backup(self@),
    {
        match self {
            PendingUsbOperation::Write { backup_file, .. } => backup_file,
            PendingUsbOperation::Restore { backup_file, .. } => backup_file,
            PendingUsbOperation::Reset { backup_file, .. } => backup_file,
        }
    }

    fn action(&self) -> (action: &'static str)
        ensures
            action@ == action_text(self@),
    {
        match self {
            PendingUsbOperation::Write { .. } => "EEPROM write",
            PendingUsbOperation::Restore { .. } => "EEPROM restore",
            PendingUsbOperation::Reset { .. } => "declared counter reset",
        }
    }

    fn run_label(&self) -> (label: String)
        ensures
            label@ == run_text(self@),
    {
        match self {
            PendingUsbOperation::Write { .. } => String::from_str("Run confirmed EEPROM write"),
            PendingUsbOperation::Restore { .. } => String::from_str(
                "Run confirmed EEPROM restore",
            ),
            PendingUsbOperation::Reset { target, .. } => String::from_str("Run confirmed ").concat(
                target.display_name(),
            ),
        }
    }

    /// The file name that is suggested for the backup.
    pub fn suggested_backup_name(&self) -> (name: &'static str)
        ensures
            name@ == match self@ {
                PendingView::Write { .. } => "eeprom-write-backup.bin"@,
                PendingView::Restore { .. } => "eeprom-restore-rollback.bin"@,
                PendingView::Reset { .. } => "eeprom-reset-backup.bin"@,
            },
    {
        match self {
            PendingUsbOperation::Write { .. } => "eeprom-write-backup.bin",
            PendingUsbOperation::Restore { .. } => "eeprom-restore-rollback.bin",
            PendingUsbOperation::Reset { .. } => "eeprom-reset-backup.bin",
        }
    }

    /// Whether the operation can be run for a model.
    pub fn runnable(&self, settings: &EpsonSpec) -> (runnable: bool)
        ensures
            runnable == can_run(settings@, self@),
    {
        let ready: bool = match self {
            PendingUsbOperation::Write { address, value, .. } => read_update(
                settings,
                address.as_str(),
                value.as_str(),
            ).is_ok(),
            PendingUsbOperation::Restore { restore_image, .. } => match restore_image {
                Some(image) => image.result.is_ok(),
                None => false,
            },
            PendingUsbOperation::Reset { target, .. } => declared_counter_reset_updates(
                settings,
                *target,
            ).is_ok(),
        };
        ready && self.backup().is_some() && confirmation_matches(
            self.typed().as_str(),
            self.required(),
        )
    }
}

/// Reads the update that has been typed.
pub fn read_update(settings: &EpsonSpec, address: &str, value: &str) -> (update: Result<
    (u16, u8),
    String,
>)
    ensures
        typed_update(settings@, address@, value@) == match update {
            Ok(update) => Ok::<(u16, u8), Seq<char>>(update),
            Err(message) => Err(message@),
        },
{
    let address = match parse_u16_input(address) {
        Ok(address) => address,
        Err(message) => return Err(message),
    };
    let value = match parse_u8_input(value) {
        Ok(value) => value,
        Err(message) => return Err(message),
    };
    if address < settings.memory_low || address > settings.memory_high {
        Err(
            String::from_str("Address ").concat(address_label(address as usize).as_str()).concat(
                " is outside the selected model range.",
            ),
        )
    } else {
        Ok((address, value))
    }
}

fn show_backup(backup_file: &Option<String>) -> (items: Vec<Item>)
    ensures
        item_views(items@) == backup_items(string_text(*backup_file)),
{
    let mut items = no_items();
    push_button(&mut items, "Choose new complete backup...", true, Action::ChooseBackup);
    match backup_file {
        Some(path) => {
            push_line(
                &mut items,
                Tone::Monospace,
                String::from_str("New backup path: ").concat(path.as_str()),
            );
            push_text(
                &mut items,
                Tone::Plain,
                "The worker uses create-new semantics and rejects an existing path.",
            );
        },
        None => {
            push_text(
                &mut items,
                Tone::Warning,
                "Choose a new complete backup path before this persistent operation can run.",
            );
        },
    }
    proof {
        assert(item_views(items@) =~= backup_items(string_text(*backup_file)));
    }
    items
}

fn show_confirmation(confirmation: &String, required: &str, action: &str) -> (items: Vec<Item>)
    ensures
        item_views(items@) == confirmation_items(confirmation@, required@, action@),
{
    let mut items = no_items();
    push_line(
        &mut items,
        Tone::Plain,
        String::from_str("Type this exact confirmation for the ").concat(action).concat(":"),
    );
    push_text(&mut items, Tone::Monospace, required);
    let edit = Item::Edit {
        entry: Entry::Confirmation,
        label: String::new(),
        hint: String::new(),
        text: confirmation.clone(),
    };
    proof {
        assert(edit@ == (ItemView::Edit {
            entry: Entry::Confirmation,
            label: seq![],
            hint: seq![],
            text: confirmation@,
        })) by {
            assert(edit@->Edit_label =~= seq![]);
            assert(edit@->hint =~= seq![]);
        }
    }
    push_item(&mut items, edit);
    if confirmation.as_str().unicode_len() > 0 && !confirmation_matches(
        confirmation.as_str(),
        required,
    ) {
        push_text(&mut items, Tone::Failure, "Confirmation does not exactly match.");
    }
    proof {
        assert(item_views(items@) =~= confirmation_items(confirmation@, required@, action@));
    }
    items
}

fn show_actions(enabled: bool, label: &str) -> (items: Vec<Item>)
    ensures
        item_views(items@) == action_items(enabled, label@),
{
    let mut items = no_items();
    push_item(&mut items, Item::Separator);
    push_button(&mut items, "Cancel", true, Action::Cancel);
    push_button(&mut items, label, enabled, Action::Run);
    proof {
        assert(item_views(items@) =~= action_items(enabled, label@));
    }
    items
}

fn show_write(settings: &EpsonSpec, pending: &PendingUsbOperation, address: &String, value: &String)
    -> (items: Vec<Item>)
    requires
        pending@ matches PendingView::Write { address: typed_address, value: typed_value, .. }
            && typed_address == address@ && typed_value == value@,
    ensures
        item_views(items@) == content_items(settings@, pending@),
{
    let mut items = no_items();
    push_text(&mut items, Tone::Heading, "Preflight");
    push_item(
        &mut items,
        Item::Edit {
            entry: Entry::Address,
            label: String::from_str("Address"),
            hint: String::from_str("0x000C or decimal"),
            text: address.clone(),
        },
    );
    push_item(
        &mut items,
        Item::Edit {
            entry: Entry::Value,
            label: String::from_str("Value"),
            hint: String::from_str("0x00 or decimal"),
            text: value.clone(),
        },
    );
    match read_update(settings, address.as_str(), value.as_str()) {
        Ok(update) => push_line(
            &mut items,
            Tone::Plain,
            String::from_str("Requested update: ").concat(
                address_label(update.0 as usize).as_str(),
            ).concat(" = ").concat(byte_label(update.1).as_str()).concat(
                ". The fresh complete backup provides the current value immediately before writing.",
            ),
        ),
        Err(error) => push_line(&mut items, Tone::Failure, error),
    }
    proof {
        assert(item_views(items@) =~= content_items(settings@, pending@));
    }
    items
}

fn show_restore(
    settings: &EpsonSpec,
    pending: &PendingUsbOperation,
    restore_image: &Option<RestoreImagePreflight>,
) -> (items: Vec<Item>)
    requires
        pending@ matches PendingView::Restore { restore_image: chosen, .. } && chosen
            == preflight_view(*restore_image),
    ensures
        item_views(items@) == content_items(settings@, pending@),
{
    let mut items = no_items();
    push_text(&mut items, Tone::Heading, "Preflight");
    push_button(&mut items, "Choose complete EEPROM image...", true, Action::ChooseImage);
    match restore_image {
        Some(image) => {
            push_text(&mut items, Tone::Monospace, image.path.as_str());
            match &image.result {
                Ok(found) => push_line(
                    &mut items,
                    Tone::Plain,
                    String::from_str("Image validation succeeded: ").concat(
                        dec(found.update_count as u64).as_str(),
                    ).concat(
                        " model-bounded byte(s) will be restored. A separate fresh current-value backup is still required.",
                    ),
                ),
                Err(error) => push_text(&mut items, Tone::Failure, error.as_str()),
            }
        },
        None => push_text(&mut items, Tone::Plain, "No restore image selected."),
    }
    proof {
        assert(item_views(items@) =~= content_items(settings@, pending@));
    }
    items
}

fn show_reset(settings: &EpsonSpec, pending: &PendingUsbOperation, target: CounterResetTarget) -> (
    items: Vec<Item>)
    requires
        pending@ matches PendingView::Reset { target: asked, .. } && asked == target,
    ensures
        item_views(items@) == content_items(settings@, pending@),
{
    let mut items = no_items();
    push_text(&mut items, Tone::Heading, "Preflight");
    match declared_counter_reset_updates(settings, target) {
        Ok(updates) => push_line(
            &mut items,
            Tone::Plain,
            String::from_str("Declared ").concat(target.display_name()).concat(
                " bytes only: ",
            ).concat(format_updates(updates.as_slice()).as_str()).concat("."),
        ),
        Err(error) => push_line(&mut items, Tone::Failure, error),
    }
    push_text(
        &mut items,
        Tone::Plain,
        "The worker captures the current values for these bytes from a fresh full backup before applying this semantic reset.",
    );
    proof {
        assert(item_views(items@) =~= content_items(settings@, pending@));
    }
    items
}

fn show_content(settings: &EpsonSpec, pending: &PendingUsbOperation) -> (items: Vec<Item>)
    ensures
        item_views(items@) == content_items(settings@, pending@),
{
    match pending {
        PendingUsbOperation::Write { address, value, .. } => show_write(
            settings,
            pending,
            address,
            value,
        ),
        PendingUsbOperation::Restore { restore_image, .. } => show_restore(
            settings,
            pending,
            restore_image,
        ),
        PendingUsbOperation::Reset { target, .. } => show_reset(settings, pending, *target),
    }
}

impl ReinkGui {
    fn show_header(&self) -> (items: Vec<Item>)
        requires
            self.well_formed(),
        ensures
            item_views(items@) == header_items(self@),
    {
        let mut items = no_items();
        push_text(
            &mut items,
            Tone::Strong,
            "This dialog does not start an operation by itself.",
        );
        push_text(
            &mut items,
            Tone::Plain,
            "The worker will re-read the exact D4 identity, require it to match this expected model, create and sync a new complete backup, then perform the confirmed action.",
        );
        push_item(&mut items, Item::Space);
        let target = match self.selected_usb_candidate() {
            Some(candidate) => candidate.alias.clone(),
            None => String::from_str("no selected USB candidate"),
        };
        push_line(
            &mut items,
            Tone::Plain,
            String::from_str("Selected target: ").concat(target.as_str()),
        );
        let model: &str = match self.selected_usb_model() {
            Some(model) => model,
            None => "not selected",
        };
        push_line(
            &mut items,
            Tone::Plain,
            String::from_str("Expected model: ").concat(model),
        );
        proof {
            assert(item_views(items@) =~= header_items(self@));
        }
        items
    }

    /// Shows the dialog for the waiting operation, if one waits.
    pub fn selected_operation_dialog(&self) -> (items: Option<Vec<Item>>)
        requires
            self.well_formed(),
        ensures
            match (items, self@.pending_usb_operation) {
                (Some(items), Some(pending)) => item_views(items@) == dialog_items(self@, pending),
                (None, None) => true,
                _ => false,
            },
    {
        let pending = match &self.pending_usb_operation {
            Some(pending) => pending,
            None => return None,
        };
        let mut items = self.show_header();
        let settings: Option<&EpsonSpec> = match self.selected_usb_model() {
            Some(model) => self.state.model_spec(model),
            None => None,
        };
        match settings {
            None => {
                push_text(
                    &mut items,
                    Tone::Failure,
                    "The expected model is no longer valid for this candidate. Close this dialog and select it again on Status.",
                );
                proof {
                    assert(item_views(items@) =~= dialog_items(self@, pending@));
                }
            },
            Some(settings) => {
                push_line(
                    &mut items,
                    Tone::Plain,
                    String::from_str("Model EEPROM range: ").concat(
                        address_label(settings.memory_low as usize).as_str(),
                    ).concat("..=").concat(address_label(settings.memory_high as usize).as_str()),
                );
                push_item(&mut items, Item::Separator);
                append_items(&mut items, show_content(settings, pending));
                append_items(&mut items, show_backup(pending.backup()));
                append_items(
                    &mut items,
                    show_confirmation(pending.typed(), pending.required(), pending.action()),
                );
                append_items(
                    &mut items,
                    show_actions(pending.runnable(settings), pending.run_label().as_str()),
                );
                proof {
                    assert(item_views(items@) =~= dialog_items(self@, pending@));
                }
            },
        }
        Some(items)
    }

    /// Waits for the confirmation of an operation, where printers can be reached
    /// over USB.
    pub fn prepare_operation(&mut self, pending: PendingUsbOperation)
        requires
            old(self).well_formed(),
        ensures
            final(self).well_formed(),
            final(self)@ == prepared_operation(old(self)@, pending@),
    {
        if self.platform.has_usb() {
            self.pending_usb_operation = Some(pending);
        }
    }

    /// Drops the waiting operation.
    pub fn cancel_operation(&mut self)
        requires
            old(self).well_formed(),
        ensures
            final(self).well_formed(),
            final(self)@ == (GuiView { pending_usb_operation: None, ..old(self)@ }),
    {
        self.pending_usb_operation = None;
    }

    /// Takes over a text that has been edited in the dialog.
    pub fn edit_entry(&mut self, entry: Entry, text: &str)
        requires
            old(self).well_formed(),
        ensures
            final(self).well_formed(),
            final(self)@ == (GuiView {
                pending_usb_operation: match old(self)@.pending_usb_operation {
                    Some(pending) => Some(entry_edited(pending, entry, text@)),
                    None => None,
                },
                ..old(self)@
            }),
    {
        if let Some(pending) = &mut self.pending_usb_operation {
            match pending {
                PendingUsbOperation::Write { address, value, confirmation, .. } => match entry {
                    Entry::Address => {
                        *address = text.to_owned();
                    },
                    Entry::Value => {
                        *value = text.to_owned();
                    },
                    Entry::Confirmation => {
                        *confirmation = text.to_owned();
                    },
                },
                PendingUsbOperation::Restore { confirmation, .. } => match entry {
                    Entry::Confirmation => {
                        *confirmation = text.to_owned();
                    },
                    _ => {},
                },
                PendingUsbOperation::Reset { confirmation, .. } => match entry {
                    Entry::Confirmation => {
                        *confirmation = text.to_owned();
                    },
                    _ => {},
                },
            }
        }
    }

    /// Takes over the path that has been chosen for the backup.
    pub fn choose_backup_file(&mut self, path: &str)
        requires
            old(self).well_formed(),
        ensures
            final(self).well_formed(),
            final(self)@ == (GuiView {
                pending_usb_operation: match old(self)@.pending_usb_operation {
                    Some(pending) => Some(backup_chosen(pending, path@)),
                    None => None,
                },
                ..old(self)@
            }),
    {
        if let Some(pending) = &mut self.pending_usb_operation {
            match pending {
                PendingUsbOperation::Write { backup_file, .. } => {
                    *backup_file = Some(path.to_owned());
                },
                PendingUsbOperation::Restore { backup_file, .. } => {
                    *backup_file = Some(path.to_owned());
                },
                PendingUsbOperation::Reset { backup_file, .. } => {
                    *backup_file = Some(path.to_owned());
                },
            }
        }
    }

    /// Takes over a restore image that has been chosen and examined.
    pub fn choose_restore_image(&mut self, image: RestoreImagePreflight)
        requires
            old(self).well_formed(),
        ensures
            final(self).well_formed(),
            final(self)@ == (GuiView {
                pending_usb_operation: match old(self)@.pending_usb_operation {
                    Some(pending) => Some(image_chosen(pending, image@)),
                    None => None,
                },
                ..old(self)@
            }),
    {
        if let Some(PendingUsbOperation::Restore { restore_image, .. }) =
            &mut self.pending_usb_operation {
            *restore_image = Some(image);
        }
    }

    /// Takes the waiting operation as a request, if it can be run.
    pub fn confirm_operation(&mut self) -> (request: Option<UsbOperationRequest>)
        requires
            old(self).well_formed(),
        ensures
            final(self).well_formed(),
            match (
                request,
                old(self)@.pending_usb_operation,
                expected_settings_of(old(self)@),
            ) {
                (Some(request), Some(pending), Some(settings)) => {
                    &&& can_run(settings, pending)
                    &&& request_of(settings, pending, request)
                    &&& final(self)@ == (GuiView { pending_usb_operation: None, ..old(self)@ })
                },
                (Some(_), _, _) => false,
                (None, Some(pending), Some(settings)) => !can_run(settings, pending)
                    && final(self)@ == old(self)@,
                (None, _, _) => final(self)@ == old(self)@,
            },
    {
        let settings: Option<&EpsonSpec> = match self.selected_usb_model() {
            Some(model) => self.state.model_spec(model),
            None => None,
        };
        let settings = match settings {
            Some(settings) => settings,
            None => return None,
        };
        let runnable: bool = match &self.pending_usb_operation {
            Some(pending) => pending.runnable(settings),
            None => return None,
        };
        if !runnable {
            return None;
        }
        let update: Option<(u16, u8)> = match &self.pending_usb_operation {
            Some(PendingUsbOperation::Write { address, value, .. }) => match read_update(
                settings,
                address.as_str(),
                value.as_str(),
            ) {
                Ok(update) => Some(update),
                Err(_) => None,
            },
            _ => None,
        };
        match self.pending_usb_operation.take() {
            Some(PendingUsbOperation::Write { backup_file: Some(backup_file), .. }) => {
                let mut updates: Vec<(u16, u8)> = Vec::new();
                if let Some(update) = update {
                    updates.push(update);
                }
                Some(UsbOperationRequest::Write { updates, backup_file })
            },
            Some(
                PendingUsbOperation::Restore {
                    restore_image: Some(RestoreImagePreflight { result: Ok(image), .. }),
                    backup_file: Some(backup_file),
                    ..
                },
            ) => Some(UsbOperationRequest::Restore { image: image.bytes, backup_file }),
            Some(PendingUsbOperation::Reset { target, backup_file: Some(backup_file), .. }) => Some(
                UsbOperationRequest::Reset { target, backup_file },
            ),
            _ => None,
        }
    }
}

/// The state in which an operation waits for its confirmation. None waits where
/// printers cannot be reached over USB.
pub open spec fn prepared_operation(gui: GuiView, pending: PendingView) -> GuiView {
    if reaches_usb(gui.platform) {
        GuiView { pending_usb_operation: Some(pending), ..gui }
    } else {
        gui
    }
}

/// A waiting operation after a text has been edited; a text that it does not
/// have is ignored.
pub open spec fn entry_edited(pending: PendingView, entry: Entry, text: Seq<char>) -> PendingView {
    match pending {
        PendingView::Write { address, value, backup_file, confirmation } => match entry {
            Entry::Address => PendingView::Write {
                address: text,
                value,
                backup_file,
                confirmation,
            },
            Entry::Value => PendingView::Write { address, value: text, backup_file, confirmation },
            Entry::Confirmation => PendingView::Write {
                address,
                value,
                backup_file,
                confirmation: text,
            },
        },
        PendingView::Restore { restore_image, backup_file, confirmation } => PendingView::Restore {
            restore_image,
            backup_file,
            confirmation: if entry == Entry::Confirmation {
                text
            } else {
                confirmation
            },
        },
        PendingView::Reset { target, backup_file, confirmation } => PendingView::Reset {
            target,
            backup_file,
            confirmation: if entry == Entry::Confirmation {
                text
            } else {
                confirmation
            },
        },
    }
}

/// A waiting operation after the path of its backup has been chosen.
pub open spec fn backup_chosen(pending: PendingView, path: Seq<char>) -> PendingView {
    match pending {
        PendingView::Write { address, value, confirmation, .. } => PendingView::Write {
            address,
            value,
            backup_file: Some(path),
            confirmation,
        },
        PendingView::Restore { restore_image, confirmation, .. } => PendingView::Restore {
            restore_image,
            backup_file: Some(path),
            confirmation,
        },
        PendingView::Reset { target, confirmation, .. } => PendingView::Reset {
            target,
            backup_file: Some(path),
            confirmation,
        },
    }
}

/// A waiting operation after a restore image has been chosen, which only a
/// restore takes.
pub open spec fn image_chosen(pending: PendingView, image: PreflightView) -> PendingView {
    match pending {
        PendingView::Restore { backup_file, confirmation, .. } => PendingView::Restore {
            restore_image: Some(image),
            backup_file,
            confirmation,
        },
        _ => pending,
    }
}

/// Each kind of operation asks for its own confirmation: the words with which
/// one kind runs let no other kind run.
pub proof fn confirmations_run_no_other_kind(
    settings: SpecView,
    left: PendingView,
    right: PendingView,
)
    requires
        can_run(settings, left),
        typed_words(left) == typed_words(right),
        action_text(left) != action_text(right),
    ensures
        !can_run(settings, right),
{
    reveal_strlit("I_CONFIRM_THIS_WILL_WRITE_EEPROM");
    reveal_strlit("I_CONFIRM_THIS_WILL_RESTORE_EEPROM");
    reveal_strlit("I_CONFIRM_THIS_WILL_RESET_DECLARED_COUNTERS");
    assert(EEPROM_WRITE_CONFIRMATION@.len() == 32);
    assert(EEPROM_RESTORE_CONFIRMATION@.len() == 34);
    assert(EEPROM_COUNTER_RESET_CONFIRMATION@.len() == 43);
}

/// A typed update that the dialog accepts lies in the range of the model.
pub proof fn accepted_updates_lie_in_range(
    settings: SpecView,
    address: Seq<char>,
    value: Seq<char>,
)
    requires
        typed_update(settings, address, value) is Ok,
    ensures
        typed_update(settings, address, value) matches Ok(update) && settings.memory_low <= update.0
            <= settings.memory_high,
{
    crate::scan::lemma_number_limit(address, 10, 0xffff);
}

/// What a typed address and a typed value come to: one update with both, in this order,
/// where the address lies in the range of the model and the value is a byte.
pub proof fn typed_updates_are_taken(
    settings: SpecView,
    address: nat,
    value: nat,
    width: nat,
    upper: bool,
)
    ensures
        ({
            let update = typed_update(
                settings,
                seq!['0', 'x'] + hex_text(address, width, upper),
                dec_text(value),
            );
            &&& update is Ok <==> settings.memory_low <= address <= settings.memory_high && value
                <= 255
            &&& update matches Ok(taken) ==> taken.0 == address && taken.1 == value
        }),
{
    let none = Seq::<char>::empty();
    typed_numbers_are_read(none, address, width, upper, false, none, 0xffff);
    typed_numbers_are_read(none, value, width, upper, false, none, 0xff);
    let text = seq!['0', 'x'] + hex_text(address, width, upper);
    assert(none + text + none =~= text);
    assert(none + dec_text(value) + none =~= dec_text(value));
}

/// Editing a text of a waiting operation changes that text and no other, and choosing the
/// path of its backup that path alone.
pub proof fn edits_change_one_thing(
    address: Seq<char>,
    value: Seq<char>,
    backup_file: Option<Seq<char>>,
    confirmation: Seq<char>,
    text: Seq<char>,
)
    ensures
        ({
            let pending = PendingView::Write { address, value, backup_file, confirmation };
            &&& entry_edited(pending, Entry::Address, text) == (PendingView::Write {
                address: text,
                value,
                backup_file,
                confirmation,
            })
            &&& entry_edited(pending, Entry::Value, text) == (PendingView::Write {
                address,
                value: text,
                backup_file,
                confirmation,
            })
            &&& entry_edited(pending, Entry::Confirmation, text) == (PendingView::Write {
                address,
                value,
                backup_file,
                confirmation: text,
            })
            &&& backup_chosen(pending, text) == (PendingView::Write {
                address,
                value,
                backup_file: Some(text),
                confirmation,
            })
        }),
{
}

/// Whatever waits: an edited confirmation is what has been typed, a chosen path is that of
/// the backup, and neither touches the other or what the operation writes.
pub proof fn edits_are_kept(
    settings: SpecView,
    pending: PendingView,
    text: Seq<char>,
)
    ensures
        typed_words(entry_edited(pending, Entry::Confirmation, text)) == text,
        chosen_backup(entry_edited(pending, Entry::Confirmation, text)) == chosen_backup(pending),
        content_ready(settings, entry_edited(pending, Entry::Confirmation, text)) == content_ready(
            settings,
            pending,
        ),
        chosen_backup(backup_chosen(pending, text)) == Some(text),
        typed_words(backup_chosen(pending, text)) == typed_words(pending),
        content_ready(settings, backup_chosen(pending, text)) == content_ready(settings, pending),
        required_words(backup_chosen(pending, text)) == required_words(pending),
        can_run(settings, pending) ==> content_ready(settings, pending) && chosen_backup(
            pending,
        ) is Some && typed_words(pending).len() == (match pending {
            PendingView::Write { .. } => 32int,
            PendingView::Restore { .. } => 34int,
            PendingView::Reset { .. } => 43int,
        }),
{
    reveal_strlit("I_CONFIRM_THIS_WILL_WRITE_EEPROM");
    reveal_strlit("I_CONFIRM_THIS_WILL_RESTORE_EEPROM");
    reveal_strlit("I_CONFIRM_THIS_WILL_RESET_DECLARED_COUNTERS");
}

} // verus!
