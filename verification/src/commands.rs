//! What a command line asks for, step by step.
//!
//! A command is checked as far as it can be with what is known. Where a fact is
//! missing, the next step is to find it out; the command is then looked at
//! again with that fact.
use crate::arguments::{
    declared_counter_reset_updates as declared_updates, read_problem, selected_model,
    selected_target, selected_updates, sensitive_refusal, update_refusal, usb_device_selector,
    validate_confirmation, validate_eeprom_read_addresses, validate_eeprom_updates,
    validate_native_acknowledgement, validate_native_sensitive_addresses, validate_new_file_path,
    CounterResetSelection, UsbDeviceSelector, EEPROM_COUNTER_RESET_CONFIRMATION,
    EEPROM_RESTORE_CONFIRMATION, EEPROM_WRITE_CONFIRMATION,
    WINDOWS_NATIVE_EXPERIMENTAL_MUTATION_ACKNOWLEDGEMENT,
};
use crate::database::ModelDatabase;
use crate::epson::{EpsonSpec, SpecView};
use crate::identity::{identity_error_text, identity_of, PrinterIdentity};
use crate::platform::{changes_usb, reaches_usb, Platform};
use crate::report::{
    counter_reset_output, eeprom_mutation_output, identity_json, identity_lines, model_report,
    models_report, mutation_report, render_identity, render_model, render_models, reset_report,
    sorted_names, string_text,
};
use crate::session::{
    declared_counter_reset_updates, image_size_text, image_updates, plan_problem, range_length,
    reset_updates, restore_eeprom_updates, restored_images_are_valid_plans,
};
use crate::text_map::{ascending, texts};
use vstd::prelude::*;

verus! {

/// Which USB interface is meant.
#[derive(Clone, Copy, Debug, PartialEq, Eq)]
pub struct UsbSelection {
    pub vendor_id: u16,
    pub product_id: u16,
    pub interface: u8,
    pub alternate_setting: u8,
    pub bus_number: Option<u8>,
    pub device_address: Option<u8>,
}

/// Which printer behind the stock driver of Windows is meant.
#[derive(Clone, Copy, Debug, PartialEq, Eq)]
pub struct NativeSelection {
    pub vendor_id: u16,
    pub product_id: u16,
    pub interface: Option<u8>,
}

/// What is to be written to a printer.
#[derive(Clone, Debug, PartialEq, Eq)]
pub enum Change {
    Write { updates: Vec<(u16, u8)> },
    Restore { input_file: String },
    Reset { selection: CounterResetSelection },
}

/// What a command line asks for.
#[derive(Clone, Debug, PartialEq, Eq)]
pub enum Command {
    Models,
    Model { name: String },
    ParseId { identifier: String },
    AnalyzeBinary { input_file: String, include_ascii: bool },
    Discover { timeout_seconds: u64 },
    LocalDevices,
    SnmpId,
    SnmpStatus,
    SnmpEepromRead { model: String, addresses: Vec<u16> },
    SnmpEepromDump { model: String, output_file: String },
    UsbId { selection: UsbSelection },
    UsbStatus { selection: UsbSelection, model: String },
    UsbD4Probe { selection: UsbSelection },
    UsbEepromDump { selection: UsbSelection, model: String, output_file: String },
    UsbEepromChange {
        selection: UsbSelection,
        model: String,
        change: Change,
        backup_file: String,
        confirmation: Option<String>,
    },
    WindowsNativeCandidates,
    WindowsNativeIdentity { selection: NativeSelection, model: String },
    WindowsNativeStatus { selection: NativeSelection, model: String },
    WindowsNativeEepromRead { selection: NativeSelection, model: String, addresses: Vec<u16> },
    WindowsNativeEepromDump { selection: NativeSelection, model: String, output_file: String },
    WindowsNativeEepromChange {
        selection: NativeSelection,
        model: String,
        change: Change,
        backup_file: String,
        confirmation: Option<String>,
        acknowledgement: Option<String>,
    },
}

/// What has been found out about the path of a new file.
#[derive(Clone, Debug)]
pub struct NewFileFacts {
    pub exists: bool,
    pub missing_parent: Option<String>,
}

/// What has been found out so far.
#[derive(Clone, Debug)]
pub struct Facts {
    pub new_file: Option<NewFileFacts>,
    /// The bytes of a restore image, or why they could not be read.
    pub image: Option<Result<Vec<u8>, String>>,
    /// The selected printer behind the stock driver has been found.
    pub candidate_found: bool,
}

impl Facts {
    /// Nothing has been found out yet.
    pub fn none() -> (facts: Self)
        ensures
            facts == (Facts { new_file: None, image: None, candidate_found: false }),
    {
        Facts { new_file: None, image: None, candidate_found: false }
    }
}

/// What is done in a session with a printer.
#[derive(Clone, Debug, PartialEq, Eq)]
pub enum SessionTask {
    Identity,
    Status,
    Read { addresses: Vec<u16> },
    Dump { output_file: String },
    Change {
        operation: &'static str,
        updates: Vec<(u16, u8)>,
        backup_file: String,
        backup_kind: &'static str,
        preparing: String,
        failing: String,
    },
}

/// The contents of a task.
pub enum TaskView {
    Identity,
    Status,
    Read { addresses: Seq<u16> },
    Dump { output_file: Seq<char> },
    Change {
        operation: Seq<char>,
        updates: Seq<(u16, u8)>,
        backup_file: Seq<char>,
        backup_kind: Seq<char>,
        preparing: Seq<char>,
        failing: Seq<char>,
    },
}

impl View for SessionTask {
    type V = TaskView;

    open spec fn view(&self) -> TaskView {
        match self {
            SessionTask::Identity => TaskView::Identity,
            SessionTask::Status => TaskView::Status,
            SessionTask::Read { addresses } => TaskView::Read { addresses: addresses@ },
            SessionTask::Dump { output_file } => TaskView::Dump { output_file: output_file@ },
            SessionTask::Change {
                operation,
                updates,
                backup_file,
                backup_kind,
                preparing,
                failing,
            } => TaskView::Change {
                operation: operation@,
                updates: updates@,
                backup_file: backup_file@,
                backup_kind: backup_kind@,
                preparing: preparing@,
                failing: failing@,
            },
        }
    }
}

/// What a command comes to next.
#[derive(Clone, Debug, PartialEq, Eq)]
pub enum NextStep {
    /// The command is done with this output.
    Print(String),
    /// It has to be found out whether a new file can take this path.
    InspectNewFile { path: String, kind: &'static str },
    /// A restore image has to be read.
    ReadImage { path: String },
    /// The selected printer behind the stock driver has to be found.
    FindNativeCandidate { selection: NativeSelection },
    AnalyzeBinary { input_file: String, include_ascii: bool },
    Discover { timeout_seconds: u64 },
    ListLocalDevices,
    SnmpIdentity,
    SnmpStatus,
    SnmpRead { settings: EpsonSpec, addresses: Vec<u16> },
    SnmpDump { settings: EpsonSpec, output_file: String },
    UsbIdentity { device: UsbDeviceSelector, interface: u8, alternate_setting: u8 },
    UsbProbe { device: UsbDeviceSelector, interface: u8, alternate_setting: u8 },
    UsbSession {
        device: UsbDeviceSelector,
        interface: u8,
        alternate_setting: u8,
        settings: EpsonSpec,
        task: SessionTask,
    },
    ListNativeCandidates,
    NativeSession { selection: NativeSelection, settings: EpsonSpec, task: SessionTask },
}

/// The contents of a step.
pub enum NextView {
    Print(Seq<char>),
    InspectNewFile { path: Seq<char>, kind: Seq<char> },
    ReadImage { path: Seq<char> },
    FindNativeCandidate { selection: NativeSelection },
    AnalyzeBinary { input_file: Seq<char>, include_ascii: bool },
    Discover { timeout_seconds: u64 },
    ListLocalDevices,
    SnmpIdentity,
    SnmpStatus,
    SnmpRead { settings: SpecView, addresses: Seq<u16> },
    SnmpDump { settings: SpecView, output_file: Seq<char> },
    UsbIdentity { device: UsbDeviceSelector, interface: u8, alternate_setting: u8 },
    UsbProbe { device: UsbDeviceSelector, interface: u8, alternate_setting: u8 },
    UsbSession {
        device: UsbDeviceSelector,
        interface: u8,
        alternate_setting: u8,
        settings: SpecView,
        task: TaskView,
    },
    ListNativeCandidates,
    NativeSession { selection: NativeSelection, settings: SpecView, task: TaskView },
}

impl View for NextStep {
    type V = NextView;

    open spec fn view(&self) -> NextView {
        match self {
            NextStep::Print(text) => NextView::Print(text@),
            NextStep::InspectNewFile { path, kind } => NextView::InspectNewFile {
                path: path@,
                kind: kind@,
            },
            NextStep::ReadImage { path } => NextView::ReadImage { path: path@ },
            NextStep::FindNativeCandidate { selection } => NextView::FindNativeCandidate {
                selection: *selection,
            },
            NextStep::AnalyzeBinary { input_file, include_ascii } => NextView::AnalyzeBinary {
                input_file: input_file@,
                include_ascii: *include_ascii,
            },
            NextStep::Discover { timeout_seconds } => NextView::Discover {
                timeout_seconds: *timeout_seconds,
            },
            NextStep::ListLocalDevices => NextView::ListLocalDevices,
            NextStep::SnmpIdentity => NextView::SnmpIdentity,
            NextStep::SnmpStatus => NextView::SnmpStatus,
            NextStep::SnmpRead { settings, addresses } => NextView::SnmpRead {
                settings: settings@,
                addresses: addresses@,
            },
            NextStep::SnmpDump { settings, output_file } => NextView::SnmpDump {
                settings: settings@,
                output_file: output_file@,
            },
            NextStep::UsbIdentity { device, interface, alternate_setting } =>
                NextView::UsbIdentity {
                device: *device,
                interface: *interface,
                alternate_setting: *alternate_setting,
            },
            NextStep::UsbProbe { device, interface, alternate_setting } => NextView::UsbProbe {
                device: *device,
                interface: *interface,
                alternate_setting: *alternate_setting,
            },
            NextStep::UsbSession { device, interface, alternate_setting, settings, task } =>
                NextView::UsbSession {
                device: *device,
                interface: *interface,
                alternate_setting: *alternate_setting,
                settings: settings@,
                task: task@,
            },
            NextStep::ListNativeCandidates => NextView::ListNativeCandidates,
            NextStep::NativeSession { selection, settings, task } => NextView::NativeSession {
                selection: *selection,
                settings: settings@,
                task: task@,
            },
        }
    }
}

/// The confirmation that a change asks for.
pub open spec fn confirmation_words(change: Change) -> Seq<char> {
    match change {
        Change::Write { .. } => EEPROM_WRITE_CONFIRMATION@,
        Change::Restore { .. } => EEPROM_RESTORE_CONFIRMATION@,
        Change::Reset { .. } => EEPROM_COUNTER_RESET_CONFIRMATION@,
    }
}

/// The name of a change.
pub open spec fn operation_name(change: Change) -> Seq<char> {
    match change {
        Change::Write { .. } => "write"@,
        Change::Restore { .. } => "restore"@,
        Change::Reset { .. } => "declared counter reset"@,
    }
}

/// The command that asks for a change.
pub open spec fn change_command(change: Change, native: bool) -> Seq<char> {
    if native {
        "windows-native-experimental-eeprom-"@ + operation_name(change)
    } else {
        match change {
            Change::Write { .. } => "usb-eeprom-write"@,
            Change::Restore { .. } => "usb-eeprom-restore"@,
            Change::Reset { .. } => "usb-eeprom-reset"@,
        }
    }
}

/// What the backup before a change is called.
pub open spec fn backup_kind(change: Change) -> Seq<char> {
    match change {
        Change::Write { .. } => "EEPROM backup"@,
        Change::Restore { .. } => "EEPROM rollback backup"@,
        Change::Reset { .. } => "EEPROM reset backup"@,
    }
}

/// What stands before the error of a change that could not be prepared.
pub open spec fn preparing_words(change: Change, native: bool) -> Seq<char> {
    if native {
        "could not prepare experimental Windows native EEPROM "@ + operation_name(change) + ": "@
    } else {
        match change {
            Change::Write { .. } => "could not prepare EEPROM write: "@,
            Change::Restore { .. } => "could not prepare EEPROM restore: "@,
            Change::Reset { .. } => "could not prepare declared counter reset: "@,
        }
    }
}

/// What stands before the error of a change that failed.
pub open spec fn failing_words(change: Change, native: bool) -> Seq<char> {
    if native {
        "experimental Windows native USBPRINT EEPROM "@ + operation_name(change) + " failed: "@
    } else {
        match change {
            Change::Write { .. } => "EEPROM write failed: "@,
            Change::Restore { .. } => "EEPROM restore failed: "@,
            Change::Reset { .. } => "declared counter reset failed: "@,
        }
    }
}

/// The task that a change comes to once its updates are known.
pub open spec fn change_task(
    change: Change,
    native: bool,
    updates: Seq<(u16, u8)>,
    backup_file: Seq<char>,
) -> TaskView {
    TaskView::Change {
        operation: operation_name(change),
        updates,
        backup_file,
        backup_kind: backup_kind(change),
        preparing: preparing_words(change, native),
        failing: failing_words(change, native),
    }
}

/// The report on a change over USB that was carried out.
pub open spec fn change_report(
    change: Change,
    model: Seq<char>,
    update_count: nat,
    backup_file: Seq<char>,
    as_json: bool,
) -> Seq<char> {
    match change {
        Change::Write { .. } => mutation_report(
            "write"@,
            model,
            update_count,
            "backup_file"@,
            backup_file,
            as_json,
        ),
        Change::Restore { .. } => mutation_report(
            "restore"@,
            model,
            update_count,
            "rollback_backup_file"@,
            backup_file,
            as_json,
        ),
        Change::Reset { selection } => reset_report(
            model,
            selection,
            update_count,
            backup_file,
            as_json,
        ),
    }
}

/// Reports a change over USB that was carried out.
pub fn usb_change_output(
    change: &Change,
    model: &str,
    update_count: usize,
    backup_file: &str,
    as_json: bool,
) -> (report: String)
    ensures
        report@ == change_report(*change, model@, update_count as nat, backup_file@, as_json),
{
    match change {
        Change::Write { .. } => eeprom_mutation_output(
            "write",
            model,
            update_count,
            "backup_file",
            backup_file,
            as_json,
        ),
        Change::Restore { .. } => eeprom_mutation_output(
            "restore",
            model,
            update_count,
            "rollback_backup_file",
            backup_file,
            as_json,
        ),
        Change::Reset { selection } => counter_reset_output(
            model,
            *selection,
            update_count,
            backup_file,
            as_json,
        ),
    }
}

/// What keeps a change from going on without the exact confirmation.
pub open spec fn confirmation_refusal(
    change: Change,
    native: bool,
    confirmation: Option<String>,
) -> Option<Seq<char>> {
    if confirmation matches Some(given) && given@ == confirmation_words(change) {
        None
    } else {
        Some(
            change_command(change, native) + " requires --confirmation "@ + confirmation_words(
                change,
            ) + " exactly"@,
        )
    }
}

/// What keeps a change through the stock driver from going on without its
/// acknowledgement.
pub open spec fn acknowledgement_refusal(acknowledgement: Option<String>) -> Option<Seq<char>> {
    if acknowledgement matches Some(given) && given@
        == WINDOWS_NATIVE_EXPERIMENTAL_MUTATION_ACKNOWLEDGEMENT@ {
        None
    } else {
        Some(
            "experimental Windows native USBPRINT mutation requires --native-experimental-acknowledgement "@
                + WINDOWS_NATIVE_EXPERIMENTAL_MUTATION_ACKNOWLEDGEMENT@ + " exactly"@,
        )
    }
}

/// What keeps a new file from taking a path.
pub open spec fn path_refusal(path: Seq<char>, kind: Seq<char>, facts: NewFileFacts) -> Option<
    Seq<char>,
> {
    if facts.exists {
        Some("refusing to overwrite existing "@ + kind + ": "@ + path)
    } else {
        match facts.missing_parent {
            Some(parent) => Some(kind + " parent directory does not exist: "@ + parent@),
            None => None,
        }
    }
}

/// The words for a model that is not in the database.
pub open spec fn unknown_model(model: Seq<char>) -> Seq<char> {
    "unknown model: "@ + model
}

/// The device that a selection stands for: a place is given by bus and address
/// together, or not at all.
pub open spec fn device_of(selection: UsbSelection) -> Result<UsbDeviceSelector, Seq<char>> {
    match (selection.bus_number, selection.device_address) {
        (None, None) => Ok(
            UsbDeviceSelector {
                vendor_id: selection.vendor_id,
                product_id: selection.product_id,
                location: None,
            },
        ),
        (Some(bus), Some(address)) => Ok(
            UsbDeviceSelector {
                vendor_id: selection.vendor_id,
                product_id: selection.product_id,
                location: Some((bus, address)),
            },
        ),
        _ => Err("--bus-number and --device-address must be provided together"@),
    }
}

/// A session over USB, if its device can be selected.
pub open spec fn usb_session(selection: UsbSelection, settings: SpecView, task: TaskView) -> Result<
    NextView,
    Seq<char>,
> {
    match device_of(selection) {
        Err(message) => Err(message),
        Ok(device) => Ok(
            NextView::UsbSession {
                device,
                interface: selection.interface,
                alternate_setting: selection.alternate_setting,
                settings,
                task,
            },
        ),
    }
}

/// The bytes of an image that could be read.
pub open spec fn image_bytes(image: Result<Vec<u8>, String>) -> Result<Seq<u8>, Seq<char>> {
    match image {
        Ok(bytes) => Ok(bytes@),
        Err(error) => Err(error@),
    }
}

/// The updates of a restore, or the step that finds its image.
pub open spec fn restored_updates(
    settings: SpecView,
    input_file: Seq<char>,
    facts: Facts,
) -> Result<Result<Seq<(u16, u8)>, NextView>, Seq<char>> {
    match facts.image {
        None => Ok(Err(NextView::ReadImage { path: input_file })),
        Some(image) => match image_bytes(image) {
            Err(error) => Err(
                "could not read EEPROM restore image "@ + input_file + ": "@ + error,
            ),
            Ok(bytes) => if bytes.len() == range_length(settings) {
                Ok(Ok(image_updates(settings.memory_low, bytes)))
            } else {
                Err(image_size_text(settings, bytes.len()))
            },
        },
    }
}

/// The updates of a change over USB, or the step that finds them.
pub open spec fn usb_updates(settings: SpecView, change: Change, facts: Facts) -> Result<
    Result<Seq<(u16, u8)>, NextView>,
    Seq<char>,
> {
    match change {
        Change::Write { updates } => match update_refusal(settings, updates@) {
            Some(problem) => Err(problem),
            None => Ok(Ok(updates@)),
        },
        Change::Restore { input_file } => restored_updates(settings, input_file@, facts),
        Change::Reset { selection } => match selected_updates(
            settings,
            selected_target(selection),
        ) {
            Ok(updates) => Ok(Ok(updates)),
            Err(message) => Err(message),
        },
    }
}

/// The updates of a change through the stock driver, as they are before their
/// validation, or the step that finds them.
pub open spec fn native_updates(settings: SpecView, change: Change, facts: Facts) -> Result<
    Result<Seq<(u16, u8)>, NextView>,
    Seq<char>,
> {
    match change {
        Change::Write { updates } => Ok(Ok(updates@)),
        Change::Restore { input_file } => restored_updates(settings, input_file@, facts),
        Change::Reset { selection } => match reset_updates(settings, selected_target(selection)) {
            Ok(updates) => Ok(Ok(updates)),
            Err(message) => Err(message),
        },
    }
}

/// A change over USB: the confirmation comes first, then the path of the
/// backup, the model and the updates.
pub open spec fn usb_change(
    database: Map<Seq<char>, SpecView>,
    selection: UsbSelection,
    model: Seq<char>,
    change: Change,
    backup_file: Seq<char>,
    confirmation: Option<String>,
    facts: Facts,
) -> Result<NextView, Seq<char>> {
    match confirmation_refusal(change, false, confirmation) {
        Some(refusal) => Err(refusal),
        None => match facts.new_file {
            None => Ok(NextView::InspectNewFile { path: backup_file, kind: backup_kind(change) }),
            Some(found) => match path_refusal(backup_file, backup_kind(change), found) {
                Some(refusal) => Err(refusal),
                None => if !database.contains_key(model) {
                    Err(unknown_model(model))
                } else {
                    match usb_updates(database[model], change, facts) {
                        Err(message) => Err(message),
                        Ok(Err(step)) => Ok(step),
                        Ok(Ok(updates)) => usb_session(
                            selection,
                            database[model],
                            change_task(change, false, updates, backup_file),
                        ),
                    }
                },
            },
        },
    }
}

/// A change through the stock driver whose updates are known: the confirmation
/// and the acknowledgement come first, then the path of the backup, the model,
/// the updates and the printer.
pub open spec fn native_change_with(
    database: Map<Seq<char>, SpecView>,
    selection: NativeSelection,
    model: Seq<char>,
    change: Change,
    updates: Seq<(u16, u8)>,
    backup_file: Seq<char>,
    confirmation: Option<String>,
    acknowledgement: Option<String>,
    facts: Facts,
) -> Result<NextView, Seq<char>> {
    if let Some(refusal) = confirmation_refusal(change, true, confirmation) {
        Err(refusal)
    } else if let Some(refusal) = acknowledgement_refusal(acknowledgement) {
        Err(refusal)
    } else {
        match facts.new_file {
            None => Ok(NextView::InspectNewFile { path: backup_file, kind: backup_kind(change) }),
            Some(found) => match path_refusal(backup_file, backup_kind(change), found) {
                Some(refusal) => Err(refusal),
                None => if !database.contains_key(model) {
                    Err(unknown_model(model))
                } else {
                    match update_refusal(database[model], updates) {
                        Some(problem) => Err(problem),
                        None => if facts.candidate_found {
                            Ok(
                                NextView::NativeSession {
                                    selection,
                                    settings: database[model],
                                    task: change_task(change, true, updates, backup_file),
                                },
                            )
                        } else {
                            Ok(NextView::FindNativeCandidate { selection })
                        },
                    }
                },
            },
        }
    }
}

/// A change through the stock driver. The updates of a restore and of a reset
/// are found before anything else is checked.
pub open spec fn native_change(
    database: Map<Seq<char>, SpecView>,
    selection: NativeSelection,
    model: Seq<char>,
    change: Change,
    backup_file: Seq<char>,
    confirmation: Option<String>,
    acknowledgement: Option<String>,
    facts: Facts,
) -> Result<NextView, Seq<char>> {
    match change {
        Change::Write { updates } => native_change_with(
            database,
            selection,
            model,
            change,
            updates@,
            backup_file,
            confirmation,
            acknowledgement,
            facts,
        ),
        _ => if !database.contains_key(model) {
            Err(unknown_model(model))
        } else {
            match native_updates(database[model], change, facts) {
                Err(message) => Err(message),
                Ok(Err(step)) => Ok(step),
                Ok(Ok(updates)) => native_change_with(
                    database,
                    selection,
                    model,
                    change,
                    updates,
                    backup_file,
                    confirmation,
                    acknowledgement,
                    facts,
                ),
            }
        },
    }
}

/// A reading session through the stock driver: the printer is found first.
pub open spec fn native_reading(
    database: Map<Seq<char>, SpecView>,
    selection: NativeSelection,
    model: Seq<char>,
    task: TaskView,
    facts: Facts,
) -> Result<NextView, Seq<char>> {
    if !facts.candidate_found {
        Ok(NextView::FindNativeCandidate { selection })
    } else if !database.contains_key(model) {
        Err(unknown_model(model))
    } else {
        Ok(NextView::NativeSession { selection, settings: database[model], task })
    }
}

/// The path of a new image has been looked at and may be taken; otherwise what
/// comes instead.
pub open spec fn image_path(path: Seq<char>, facts: Facts) -> Option<Result<NextView, Seq<char>>> {
    match facts.new_file {
        None => Some(Ok(NextView::InspectNewFile { path, kind: "EEPROM image"@ })),
        Some(found) => match path_refusal(path, "EEPROM image"@, found) {
            Some(refusal) => Some(Err(refusal)),
            None => None,
        },
    }
}

/// What a command comes to next, for the commands with a single answer.
pub open spec fn next_of(
    database: Map<Seq<char>, SpecView>,
    command: Command,
    facts: Facts,
    as_json: bool,
) -> Result<NextView, Seq<char>> {
    match command {
        Command::Model { name } => if database.contains_key(name@) {
            Ok(NextView::Print(model_report(database[name@], as_json)))
        } else {
            Err(unknown_model(name@))
        },
        Command::AnalyzeBinary { input_file, include_ascii } => Ok(
            NextView::AnalyzeBinary { input_file: input_file@, include_ascii },
        ),
        Command::Discover { timeout_seconds } => Ok(NextView::Discover { timeout_seconds }),
        Command::LocalDevices => Ok(NextView::ListLocalDevices),
        Command::SnmpId => Ok(NextView::SnmpIdentity),
        Command::SnmpStatus => Ok(NextView::SnmpStatus),
        Command::SnmpEepromRead { model, addresses } => if !database.contains_key(model@) {
            Err(unknown_model(model@))
        } else {
            match read_problem(database[model@], addresses@) {
                Some(problem) => Err(problem),
                None => Ok(
                    NextView::SnmpRead { settings: database[model@], addresses: addresses@ },
                ),
            }
        },
        Command::SnmpEepromDump { model, output_file } => match image_path(output_file@, facts) {
            Some(other) => other,
            None => if !database.contains_key(model@) {
                Err(unknown_model(model@))
            } else {
                Ok(
                    NextView::SnmpDump {
                        settings: database[model@],
                        output_file: output_file@,
                    },
                )
            },
        },
        Command::UsbId { selection } => match device_of(selection) {
            Err(message) => Err(message),
            Ok(device) => Ok(
                NextView::UsbIdentity {
                    device,
                    interface: selection.interface,
                    alternate_setting: selection.alternate_setting,
                },
            ),
        },
        Command::UsbD4Probe { selection } => match device_of(selection) {
            Err(message) => Err(message),
            Ok(device) => Ok(
                NextView::UsbProbe {
                    device,
                    interface: selection.interface,
                    alternate_setting: selection.alternate_setting,
                },
            ),
        },
        Command::UsbStatus { selection, model } => if !database.contains_key(model@) {
            Err(unknown_model(model@))
        } else {
            usb_session(selection, database[model@], TaskView::Status)
        },
        Command::UsbEepromDump { selection, model, output_file } => match image_path(
            output_file@,
            facts,
        ) {
            Some(other) => other,
            None => if !database.contains_key(model@) {
                Err(unknown_model(model@))
            } else {
                usb_session(
                    selection,
                    database[model@],
                    TaskView::Dump { output_file: output_file@ },
                )
            },
        },
        Command::UsbEepromChange { selection, model, change, backup_file, confirmation } =>
            usb_change(
            database,
            selection,
            model@,
            change,
            backup_file@,
            confirmation,
            facts,
        ),
        Command::WindowsNativeCandidates => Ok(NextView::ListNativeCandidates),
        Command::WindowsNativeIdentity { selection, model } => native_reading(
            database,
            selection,
            model@,
            TaskView::Identity,
            facts,
        ),
        Command::WindowsNativeStatus { selection, model } => native_reading(
            database,
            selection,
            model@,
            TaskView::Status,
            facts,
        ),
        Command::WindowsNativeEepromRead { selection, model, addresses } =>
            if !database.contains_key(model@) {
            Err(unknown_model(model@))
        } else {
            match (
                read_problem(database[model@], addresses@),
                sensitive_refusal(database[model@], addresses@),
            ) {
                (Some(problem), _) => Err(problem),
                (None, Some(refusal)) => Err(refusal),
                (None, None) => native_reading(
                    database,
                    selection,
                    model@,
                    TaskView::Read { addresses: addresses@ },
                    facts,
                ),
            }
        },
        Command::WindowsNativeEepromDump { selection, model, output_file } => match image_path(
            output_file@,
            facts,
        ) {
            Some(other) => other,
            None => native_reading(
                database,
                selection,
                model@,
                TaskView::Dump { output_file: output_file@ },
                facts,
            ),
        },
        Command::WindowsNativeEepromChange {
            selection,
            model,
            change,
            backup_file,
            confirmation,
            acknowledgement,
        } => native_change(
            database,
            selection,
            model@,
            change,
            backup_file@,
            confirmation,
            acknowledgement,
            facts,
        ),
        Command::Models | Command::ParseId { .. } => arbitrary(),
    }
}

/// The names are those of all models, in ascending order.
pub open spec fn all_models(
    names: Seq<Seq<char>>,
    database: Map<Seq<char>, SpecView>,
) -> bool {
    &&& ascending(names)
    &&& forall|name: Seq<char>| #[trigger] names.contains(name) <==> database.contains_key(name)
}

/// The words for a platform on which a change over USB is not to be had.
pub open spec fn change_unsupported(change: Change) -> Seq<char> {
    match change {
        Change::Write { .. } =>
            "USB EEPROM writes are currently supported only on Linux or macOS"@,
        Change::Restore { .. } =>
            "USB EEPROM restores are currently supported only on Linux or macOS"@,
        Change::Reset { .. } =>
            "USB EEPROM resets are currently supported only on Linux or macOS"@,
    }
}

/// Why a command is not to be had on a platform, if it is not.
pub open spec fn platform_refusal(platform: Platform, command: Command) -> Option<Seq<char>> {
    match command {
        Command::LocalDevices => if platform == Platform::Linux {
            None
        } else {
            Some("Linux device-file discovery is unavailable on this platform"@)
        },
        Command::UsbId { .. } => if reaches_usb(platform) {
            None
        } else {
            Some(
                "USB identity inspection is currently supported only on Linux, macOS, or Windows"@,
            )
        },
        Command::UsbStatus { .. } => if reaches_usb(platform) {
            None
        } else {
            Some("USB printer status is currently supported only on Linux, macOS, or Windows"@)
        },
        Command::UsbD4Probe { .. } => if reaches_usb(platform) {
            None
        } else {
            Some("USB D4 probing is currently supported only on Linux, macOS, or Windows"@)
        },
        Command::UsbEepromDump { .. } => if reaches_usb(platform) {
            None
        } else {
            Some("USB EEPROM dumps are currently supported only on Linux, macOS, or Windows"@)
        },
        Command::UsbEepromChange { change, .. } => if changes_usb(platform) {
            None
        } else {
            Some(change_unsupported(change))
        },
        _ => None,
    }
}

/// What a command comes to next. A command that is not to be had on the platform
/// is refused before anything else is looked at.
pub open spec fn decided(
    platform: Platform,
    database: Map<Seq<char>, SpecView>,
    command: Command,
    facts: Facts,
    as_json: bool,
    result: Result<NextView, Seq<char>>,
) -> bool {
    match platform_refusal(platform, command) {
        Some(refusal) => result == Err::<NextView, Seq<char>>(refusal),
        None => decided_there(database, command, facts, as_json, result),
    }
}

/// What a command comes to next on a platform that has it.
pub open spec fn decided_there(
    database: Map<Seq<char>, SpecView>,
    command: Command,
    facts: Facts,
    as_json: bool,
    result: Result<NextView, Seq<char>>,
) -> bool {
    match command {
        Command::Models => exists|names: Seq<Seq<char>>| #[trigger]
            all_models(names, database) && result == Ok::<NextView, Seq<char>>(
                NextView::Print(models_report(names, as_json)),
            ),
        Command::ParseId { identifier } => match identity_of(identifier@) {
            Err(error) => result == Err::<NextView, Seq<char>>(identity_error_text(error)),
            Ok(identity) => if as_json {
                result == Ok::<NextView, Seq<char>>(
                    NextView::Print(identity_json(identity, database)),
                )
            } else {
                exists|names: Seq<Seq<char>>| #[trigger]
                    sorted_names(names, identity.fields) && result == Ok::<NextView, Seq<char>>(
                        NextView::Print(identity_lines(identity, database, names)),
                    )
            },
        },
        _ => result == next_of(database, command, facts, as_json),
    }
}

/// The contents of a result.
pub open spec fn step_view(result: Result<NextStep, String>) -> Result<NextView, Seq<char>> {
    match result {
        Ok(step) => Ok(step@),
        Err(message) => Err(message@),
    }
}

fn confirmation_for(change: &Change) -> (words: &'static str)
    ensures
        words@ == confirmation_words(*change),
{
    match change {
        Change::Write { .. } => EEPROM_WRITE_CONFIRMATION,
        Change::Restore { .. } => EEPROM_RESTORE_CONFIRMATION,
        Change::Reset { .. } => EEPROM_COUNTER_RESET_CONFIRMATION,
    }
}

fn name_of(change: &Change) -> (name: &'static str)
    ensures
        name@ == operation_name(*change),
{
    match change {
        Change::Write { .. } => "write",
        Change::Restore { .. } => "restore",
        Change::Reset { .. } => "declared counter reset",
    }
}

fn kind_of(change: &Change) -> (kind: &'static str)
    ensures
        kind@ == backup_kind(*change),
{
    match change {
        Change::Write { .. } => "EEPROM backup",
        Change::Restore { .. } => "EEPROM rollback backup",
        Change::Reset { .. } => "EEPROM reset backup",
    }
}

fn command_of(change: &Change, native: bool) -> (name: String)
    ensures
        name@ == change_command(*change, native),
{
    if native {
        String::from_str("windows-native-experimental-eeprom-").concat(name_of(change))
    } else {
        match change {
            Change::Write { .. } => String::from_str("usb-eeprom-write"),
            Change::Restore { .. } => String::from_str("usb-eeprom-restore"),
            Change::Reset { .. } => String::from_str("usb-eeprom-reset"),
        }
    }
}

fn preparing_of(change: &Change, native: bool) -> (words: String)
    ensures
        words@ == preparing_words(*change, native),
{
    if native {
        String::from_str("could not prepare experimental Windows native EEPROM ").concat(
            name_of(change),
        ).concat(": ")
    } else {
        match change {
            Change::Write { .. } => String::from_str("could not prepare EEPROM write: "),
            Change::Restore { .. } => String::from_str("could not prepare EEPROM restore: "),
            Change::Reset { .. } => String::from_str(
                "could not prepare declared counter reset: ",
            ),
        }
    }
}

fn failing_of(change: &Change, native: bool) -> (words: String)
    ensures
        words@ == failing_words(*change, native),
{
    if native {
        String::from_str("experimental Windows native USBPRINT EEPROM ").concat(
            name_of(change),
        ).concat(" failed: ")
    } else {
        match change {
            Change::Write { .. } => String::from_str("EEPROM write failed: "),
            Change::Restore { .. } => String::from_str("EEPROM restore failed: "),
            Change::Reset { .. } => String::from_str("declared counter reset failed: "),
        }
    }
}

fn task_of(change: &Change, native: bool, updates: Vec<(u16, u8)>, backup_file: &String) -> (task:
    SessionTask)
    ensures
        task@ == change_task(*change, native, updates@, backup_file@),
{
    SessionTask::Change {
        operation: name_of(change),
        updates,
        backup_file: backup_file.clone(),
        backup_kind: kind_of(change),
        preparing: preparing_of(change, native),
        failing: failing_of(change, native),
    }
}

fn optional_str(text: &Option<String>) -> (words: Option<&str>)
    ensures
        match (words, *text) {
            (Some(words), Some(text)) => words@ == text@,
            (None, None) => true,
            _ => false,
        },
{
    match text {
        Some(text) => Some(text.as_str()),
        None => None,
    }
}

fn confirm_change(change: &Change, native: bool, confirmation: &Option<String>) -> (refusal: Option<
    String,
>)
    ensures
        string_text(refusal) == confirmation_refusal(
            *change,
            native,
            *confirmation,
        ),
{
    match validate_confirmation(
        optional_str(confirmation),
        confirmation_for(change),
        command_of(change, native).as_str(),
    ) {
        Ok(_) => None,
        Err(message) => Some(message),
    }
}

fn acknowledge_change(acknowledgement: &Option<String>) -> (refusal: Option<String>)
    ensures
        string_text(refusal) == acknowledgement_refusal(*acknowledgement),
{
    match validate_native_acknowledgement(optional_str(acknowledgement)) {
        Ok(_) => None,
        Err(message) => Some(message),
    }
}

fn refuse_path(path: &str, kind: &str, facts: &NewFileFacts) -> (refusal: Option<String>)
    ensures
        string_text(refusal) == path_refusal(path@, kind@, *facts),
{
    match validate_new_file_path(path, kind, facts.exists, optional_str(&facts.missing_parent)) {
        Ok(_) => None,
        Err(message) => Some(message),
    }
}

fn open_session(selection: &UsbSelection, settings: EpsonSpec, task: SessionTask) -> (step: Result<
    NextStep,
    String,
>)
    ensures
        step_view(step) == usb_session(*selection, settings@, task@),
{
    match usb_device_selector(
        selection.vendor_id,
        selection.product_id,
        selection.bus_number,
        selection.device_address,
    ) {
        Err(message) => Err(message),
        Ok(device) => Ok(
            NextStep::UsbSession {
                device,
                interface: selection.interface,
                alternate_setting: selection.alternate_setting,
                settings,
                task,
            },
        ),
    }
}

/// The updates of a change, or what has to be found out first.
enum FoundUpdates {
    Updates(Vec<(u16, u8)>),
    Missing(NextStep),
}

spec fn found_view(found: Result<FoundUpdates, String>) -> Result<
    Result<Seq<(u16, u8)>, NextView>,
    Seq<char>,
> {
    match found {
        Ok(FoundUpdates::Updates(updates)) => Ok(Ok(updates@)),
        Ok(FoundUpdates::Missing(step)) => Ok(Err(step@)),
        Err(message) => Err(message@),
    }
}

fn find_restored(settings: &EpsonSpec, input_file: &String, facts: &Facts) -> (found: Result<
    FoundUpdates,
    String,
>)
    ensures
        found_view(found) == restored_updates(settings@, input_file@, *facts),
{
    match &facts.image {
        None => Ok(FoundUpdates::Missing(NextStep::ReadImage { path: input_file.clone() })),
        Some(Err(error)) => Err(
            String::from_str("could not read EEPROM restore image ").concat(
                input_file.as_str(),
            ).concat(": ").concat(error.as_str()),
        ),
        Some(Ok(bytes)) => match restore_eeprom_updates(settings, bytes.as_slice()) {
            Ok(updates) => Ok(FoundUpdates::Updates(updates)),
            Err(message) => Err(message),
        },
    }
}

fn find_usb_updates(settings: &EpsonSpec, change: &Change, facts: &Facts) -> (found: Result<
    FoundUpdates,
    String,
>)
    ensures
        found_view(found) == usb_updates(settings@, *change, *facts),
{
    match change {
        Change::Write { updates } => match validate_eeprom_updates(settings, updates.as_slice()) {
            Err(message) => Err(message),
            Ok(_) => Ok(FoundUpdates::Updates(vstd::slice::slice_to_vec(updates.as_slice()))),
        },
        Change::Restore { input_file } => find_restored(settings, input_file, facts),
        Change::Reset { selection } => match declared_updates(settings, *selection) {
            Ok(updates) => Ok(FoundUpdates::Updates(updates)),
            Err(message) => Err(message),
        },
    }
}

fn find_native_updates(settings: &EpsonSpec, change: &Change, facts: &Facts) -> (found: Result<
    FoundUpdates,
    String,
>)
    ensures
        found_view(found) == native_updates(settings@, *change, *facts),
{
    match change {
        Change::Write { updates } => Ok(
            FoundUpdates::Updates(vstd::slice::slice_to_vec(updates.as_slice())),
        ),
        Change::Restore { input_file } => find_restored(settings, input_file, facts),
        Change::Reset { selection } => match declared_counter_reset_updates(
            settings,
            selection.target(),
        ) {
            Ok(updates) => Ok(FoundUpdates::Updates(updates)),
            Err(message) => Err(message),
        },
    }
}

fn next_usb_change(
    database: &ModelDatabase,
    selection: &UsbSelection,
    model: &String,
    change: &Change,
    backup_file: &String,
    confirmation: &Option<String>,
    facts: &Facts,
) -> (step: Result<NextStep, String>)
    requires
        database.well_formed(),
    ensures
        step_view(step) == usb_change(
            database@,
            *selection,
            model@,
            *change,
            backup_file@,
            *confirmation,
            *facts,
        ),
{
    if let Some(refusal) = confirm_change(change, false, confirmation) {
        return Err(refusal);
    }
    match &facts.new_file {
        None => {
            return Ok(
                NextStep::InspectNewFile { path: backup_file.clone(), kind: kind_of(change) },
            );
        },
        Some(found) => {
            if let Some(refusal) = refuse_path(backup_file.as_str(), kind_of(change), found) {
                return Err(refusal);
            }
        },
    }
    let settings = match selected_model(database, model.as_str()) {
        Ok(settings) => settings,
        Err(message) => return Err(message),
    };
    match find_usb_updates(&settings, change, facts) {
        Err(message) => Err(message),
        Ok(FoundUpdates::Missing(step)) => Ok(step),
        Ok(FoundUpdates::Updates(updates)) => {
            let task = task_of(change, false, updates, backup_file);
            open_session(selection, settings, task)
        },
    }
}

fn next_native_change_with(
    database: &ModelDatabase,
    selection: &NativeSelection,
    model: &String,
    change: &Change,
    updates: Vec<(u16, u8)>,
    backup_file: &String,
    confirmation: &Option<String>,
    acknowledgement: &Option<String>,
    facts: &Facts,
) -> (step: Result<NextStep, String>)
    requires
        database.well_formed(),
    ensures
        step_view(step) == native_change_with(
            database@,
            *selection,
            model@,
            *change,
            updates@,
            backup_file@,
            *confirmation,
            *acknowledgement,
            *facts,
        ),
{
    if let Some(refusal) = confirm_change(change, true, confirmation) {
        return Err(refusal);
    }
    if let Some(refusal) = acknowledge_change(acknowledgement) {
        return Err(refusal);
    }
    match &facts.new_file {
        None => {
            return Ok(
                NextStep::InspectNewFile { path: backup_file.clone(), kind: kind_of(change) },
            );
        },
        Some(found) => {
            if let Some(refusal) = refuse_path(backup_file.as_str(), kind_of(change), found) {
                return Err(refusal);
            }
        },
    }
    let settings = match selected_model(database, model.as_str()) {
        Ok(settings) => settings,
        Err(message) => return Err(message),
    };
    if let Err(problem) = validate_eeprom_updates(&settings, updates.as_slice()) {
        return Err(problem);
    }
    if facts.candidate_found {
        let task = task_of(change, true, updates, backup_file);
        Ok(NextStep::NativeSession { selection: *selection, settings, task })
    } else {
        Ok(NextStep::FindNativeCandidate { selection: *selection })
    }
}

fn next_native_change(
    database: &ModelDatabase,
    selection: &NativeSelection,
    model: &String,
    change: &Change,
    backup_file: &String,
    confirmation: &Option<String>,
    acknowledgement: &Option<String>,
    facts: &Facts,
) -> (step: Result<NextStep, String>)
    requires
        database.well_formed(),
    ensures
        step_view(step) == native_change(
            database@,
            *selection,
            model@,
            *change,
            backup_file@,
            *confirmation,
            *acknowledgement,
            *facts,
        ),
{
    let updates: Vec<(u16, u8)> = match change {
        Change::Write { updates } => vstd::slice::slice_to_vec(updates.as_slice()),
        _ => {
            let settings = match selected_model(database, model.as_str()) {
                Ok(settings) => settings,
                Err(message) => return Err(message),
            };
            match find_native_updates(&settings, change, facts) {
                Err(message) => return Err(message),
                Ok(FoundUpdates::Missing(step)) => return Ok(step),
                Ok(FoundUpdates::Updates(updates)) => updates,
            }
        },
    };
    next_native_change_with(
        database,
        selection,
        model,
        change,
        updates,
        backup_file,
        confirmation,
        acknowledgement,
        facts,
    )
}

fn next_native_reading(
    database: &ModelDatabase,
    selection: &NativeSelection,
    model: &String,
    task: SessionTask,
    facts: &Facts,
) -> (step: Result<NextStep, String>)
    requires
        database.well_formed(),
    ensures
        step_view(step) == native_reading(database@, *selection, model@, task@, *facts),
{
    if !facts.candidate_found {
        return Ok(NextStep::FindNativeCandidate { selection: *selection });
    }
    match selected_model(database, model.as_str()) {
        Err(message) => Err(message),
        Ok(settings) => Ok(
            NextStep::NativeSession { selection: *selection, settings, task },
        ),
    }
}

fn next_image_path(path: &String, facts: &Facts) -> (other: Option<Result<NextStep, String>>)
    ensures
        image_path(path@, *facts) == match other {
            Some(step) => Some(step_view(step)),
            None => None,
        },
{
    match &facts.new_file {
        None => Some(
            Ok(NextStep::InspectNewFile { path: path.clone(), kind: "EEPROM image" }),
        ),
        Some(found) => match refuse_path(path.as_str(), "EEPROM image", found) {
            Some(refusal) => Some(Err(refusal)),
            None => None,
        },
    }
}

fn next_listing(database: &ModelDatabase, as_json: bool) -> (step: Result<NextStep, String>)
    requires
        database.well_formed(),
    ensures
        exists|names: Seq<Seq<char>>| #[trigger]
            all_models(names, database@) && step_view(step) == Ok::<NextView, Seq<char>>(
                NextView::Print(models_report(names, as_json)),
            ),
{
    let names = database.models();
    proof {
        assert(all_models(texts(names@), database@));
    }
    Ok(NextStep::Print(render_models(names.as_slice(), as_json)))
}

fn refuse_platform(platform: Platform, command: &Command) -> (refusal: Option<String>)
    ensures
        match (refusal, platform_refusal(platform, *command)) {
            (Some(refusal), Some(expected)) => refusal@ == expected,
            (None, None) => true,
            _ => false,
        },
{
    let reaches: bool = platform.has_usb();
    let changes: bool = platform.has_usb_changes();
    let (supported, words): (bool, &'static str) = match command {
        Command::LocalDevices => (
            matches!(platform, Platform::Linux),
            "Linux device-file discovery is unavailable on this platform",
        ),
        Command::UsbId { .. } => (
            reaches,
            "USB identity inspection is currently supported only on Linux, macOS, or Windows",
        ),
        Command::UsbStatus { .. } => (
            reaches,
            "USB printer status is currently supported only on Linux, macOS, or Windows",
        ),
        Command::UsbD4Probe { .. } => (
            reaches,
            "USB D4 probing is currently supported only on Linux, macOS, or Windows",
        ),
        Command::UsbEepromDump { .. } => (
            reaches,
            "USB EEPROM dumps are currently supported only on Linux, macOS, or Windows",
        ),
        Command::UsbEepromChange { change, .. } => (
            changes,
            match change {
                Change::Write { .. } =>
                    "USB EEPROM writes are currently supported only on Linux or macOS",
                Change::Restore { .. } =>
                    "USB EEPROM restores are currently supported only on Linux or macOS",
                Change::Reset { .. } =>
                    "USB EEPROM resets are currently supported only on Linux or macOS",
            },
        ),
        _ => (true, ""),
    };
    if supported {
        None
    } else {
        Some(words.to_owned())
    }
}

/// Decides what a command comes to next on a platform.
pub fn next_step(
    platform: Platform,
    database: &ModelDatabase,
    command: &Command,
    facts: &Facts,
    as_json: bool,
) -> (step: Result<NextStep, String>)
    requires
        database.well_formed(),
    ensures
        decided(platform, database@, *command, *facts, as_json, step_view(step)),
{
    if let Some(refusal) = refuse_platform(platform, command) {
        return Err(refusal);
    }
    match command {
        Command::Models => next_listing(database, as_json),
        Command::Model { name } => match selected_model(database, name.as_str()) {
            Err(message) => Err(message),
            Ok(settings) => Ok(NextStep::Print(render_model(&settings, as_json))),
        },
        Command::ParseId { identifier } => match PrinterIdentity::parse(identifier.as_str()) {
            Err(error) => Err(error.message()),
            Ok(identity) => Ok(NextStep::Print(render_identity(&identity, database, as_json))),
        },
        Command::AnalyzeBinary { input_file, include_ascii } => Ok(
            NextStep::AnalyzeBinary {
                input_file: input_file.clone(),
                include_ascii: *include_ascii,
            },
        ),
        Command::Discover { timeout_seconds } => Ok(
            NextStep::Discover { timeout_seconds: *timeout_seconds },
        ),
        Command::LocalDevices => Ok(NextStep::ListLocalDevices),
        Command::SnmpId => Ok(NextStep::SnmpIdentity),
        Command::SnmpStatus => Ok(NextStep::SnmpStatus),
        Command::SnmpEepromRead { model, addresses } => {
            let settings = match selected_model(database, model.as_str()) {
                Ok(settings) => settings,
                Err(message) => return Err(message),
            };
            match validate_eeprom_read_addresses(&settings, addresses.as_slice()) {
                Err(problem) => Err(problem),
                Ok(_) => Ok(
                    NextStep::SnmpRead {
                        settings,
                        addresses: vstd::slice::slice_to_vec(addresses.as_slice()),
                    },
                ),
            }
        },
        Command::SnmpEepromDump { model, output_file } => {
            if let Some(other) = next_image_path(output_file, facts) {
                return other;
            }
            match selected_model(database, model.as_str()) {
                Err(message) => Err(message),
                Ok(settings) => Ok(
                    NextStep::SnmpDump { settings, output_file: output_file.clone() },
                ),
            }
        },
        Command::UsbId { selection } => match usb_device_selector(
            selection.vendor_id,
            selection.product_id,
            selection.bus_number,
            selection.device_address,
        ) {
            Err(message) => Err(message),
            Ok(device) => Ok(
                NextStep::UsbIdentity {
                    device,
                    interface: selection.interface,
                    alternate_setting: selection.alternate_setting,
                },
            ),
        },
        Command::UsbD4Probe { selection } => match usb_device_selector(
            selection.vendor_id,
            selection.product_id,
            selection.bus_number,
            selection.device_address,
        ) {
            Err(message) => Err(message),
            Ok(device) => Ok(
                NextStep::UsbProbe {
                    device,
                    interface: selection.interface,
                    alternate_setting: selection.alternate_setting,
                },
            ),
        },
        Command::UsbStatus { selection, model } => match selected_model(database, model.as_str()) {
            Err(message) => Err(message),
            Ok(settings) => open_session(selection, settings, SessionTask::Status),
        },
        Command::UsbEepromDump { selection, model, output_file } => {
            if let Some(other) = next_image_path(output_file, facts) {
                return other;
            }
            match selected_model(database, model.as_str()) {
                Err(message) => Err(message),
                Ok(settings) => open_session(
                    selection,
                    settings,
                    SessionTask::Dump { output_file: output_file.clone() },
                ),
            }
        },
        Command::UsbEepromChange { selection, model, change, backup_file, confirmation } =>
            next_usb_change(database, selection, model, change, backup_file, confirmation, facts),
        Command::WindowsNativeCandidates => Ok(NextStep::ListNativeCandidates),
        Command::WindowsNativeIdentity { selection, model } => next_native_reading(
            database,
            selection,
            model,
            SessionTask::Identity,
            facts,
        ),
        Command::WindowsNativeStatus { selection, model } => next_native_reading(
            database,
            selection,
            model,
            SessionTask::Status,
            facts,
        ),
        Command::WindowsNativeEepromRead { selection, model, addresses } => {
            let settings = match selected_model(database, model.as_str()) {
                Ok(settings) => settings,
                Err(message) => return Err(message),
            };
            if let Err(problem) = validate_eeprom_read_addresses(&settings, addresses.as_slice()) {
                return Err(problem);
            }
            if let Err(refusal) = validate_native_sensitive_addresses(
                &settings,
                addresses.as_slice(),
            ) {
                return Err(refusal);
            }
            let task = SessionTask::Read {
                addresses: vstd::slice::slice_to_vec(addresses.as_slice()),
            };
            next_native_reading(database, selection, model, task, facts)
        },
        Command::WindowsNativeEepromDump { selection, model, output_file } => {
            if let Some(other) = next_image_path(output_file, facts) {
                return other;
            }
            next_native_reading(
                database,
                selection,
                model,
                SessionTask::Dump { output_file: output_file.clone() },
                facts,
            )
        },
        Command::WindowsNativeEepromChange {
            selection,
            model,
            change,
            backup_file,
            confirmation,
            acknowledgement,
        } => next_native_change(
            database,
            selection,
            model,
            change,
            backup_file,
            confirmation,
            acknowledgement,
            facts,
        ),
    }
}

/// A printer is reached over USB only on Linux, macOS and Windows, and changed
/// over USB only on Linux and macOS; device files are listed only on Linux.
pub proof fn commands_keep_to_their_platforms(
    platform: Platform,
    database: Map<Seq<char>, SpecView>,
    command: Command,
    facts: Facts,
    as_json: bool,
    result: Result<NextView, Seq<char>>,
)
    requires
        decided(platform, database, command, facts, as_json, result),
    ensures
        result matches Ok(NextView::UsbIdentity { .. }) ==> reaches_usb(platform),
        result matches Ok(NextView::UsbProbe { .. }) ==> reaches_usb(platform),
        result matches Ok(NextView::UsbSession { .. }) ==> reaches_usb(platform),
        result matches Ok(NextView::UsbSession { task: TaskView::Change { .. }, .. })
            ==> changes_usb(platform),
        result == Ok::<NextView, Seq<char>>(NextView::ListLocalDevices) ==> platform
            == Platform::Linux,
{
}

/// A session in which a printer is changed over USB is opened only after the
/// exact confirmation, for a known model, and with a free path for the backup.
pub proof fn usb_changes_are_gated(
    database: Map<Seq<char>, SpecView>,
    selection: UsbSelection,
    model: Seq<char>,
    change: Change,
    backup_file: Seq<char>,
    confirmation: Option<String>,
    facts: Facts,
)
    requires
        usb_change(
            database,
            selection,
            model,
            change,
            backup_file,
            confirmation,
            facts,
        ) matches Ok(NextView::UsbSession { .. }),
    ensures
        confirmation matches Some(given) && given@ == confirmation_words(change),
        facts.new_file matches Some(found) && !found.exists && found.missing_parent is None,
        database.contains_key(model),
        usb_change(
            database,
            selection,
            model,
            change,
            backup_file,
            confirmation,
            facts,
        ) matches Ok(NextView::UsbSession { settings, .. }) && settings == database[model],
{
}

/// A session in which a printer is changed through the stock driver is opened
/// only after the exact confirmation and the exact acknowledgement, for a known
/// model, and with a free path for the backup.
pub proof fn native_changes_are_gated(
    database: Map<Seq<char>, SpecView>,
    selection: NativeSelection,
    model: Seq<char>,
    change: Change,
    backup_file: Seq<char>,
    confirmation: Option<String>,
    acknowledgement: Option<String>,
    facts: Facts,
)
    requires
        native_change(
            database,
            selection,
            model,
            change,
            backup_file,
            confirmation,
            acknowledgement,
            facts,
        ) matches Ok(NextView::NativeSession { .. }),
    ensures
        confirmation matches Some(given) && given@ == confirmation_words(change),
        acknowledgement matches Some(given) && given@
            == WINDOWS_NATIVE_EXPERIMENTAL_MUTATION_ACKNOWLEDGEMENT@,
        facts.new_file matches Some(found) && !found.exists && found.missing_parent is None,
        database.contains_key(model),
        facts.candidate_found,
{
}

/// The three kinds of change ask for three different confirmations, so the
/// words for one never let another pass.
pub proof fn confirmations_tell_changes_apart(left: Change, right: Change)
    requires
        confirmation_words(left) == confirmation_words(right),
    ensures
        operation_name(left) == operation_name(right),
{
    reveal_strlit("I_CONFIRM_THIS_WILL_WRITE_EEPROM");
    reveal_strlit("I_CONFIRM_THIS_WILL_RESTORE_EEPROM");
    reveal_strlit("I_CONFIRM_THIS_WILL_RESET_DECLARED_COUNTERS");
    assert(EEPROM_WRITE_CONFIRMATION@.len() == 32);
    assert(EEPROM_RESTORE_CONFIRMATION@.len() == 34);
    assert(EEPROM_COUNTER_RESET_CONFIRMATION@.len() == 43);
}

/// The updates of a change over USB pass the validation of a session, for a
/// model with a proper range.
pub proof fn found_updates_are_valid(settings: SpecView, change: Change, facts: Facts)
    requires
        settings.memory_low <= settings.memory_high,
        usb_updates(settings, change, facts) matches Ok(Ok(_)),
    ensures
        usb_updates(settings, change, facts) matches Ok(Ok(updates)) && plan_problem(
            settings,
            updates,
        ) is None,
{
    if change is Restore {
        if let Some(Ok(bytes)) = facts.image {
            restored_images_are_valid_plans(settings, bytes@);
        }
    }
}

/// The device that a selection names: the vendor and the product, and the place by bus
/// and address where both are given. One of them alone is refused.
pub proof fn selections_name_their_device(selection: UsbSelection)
    ensures
        match (selection.bus_number, selection.device_address) {
            (None, None) => device_of(selection) matches Ok(device) && device.vendor_id
                == selection.vendor_id && device.product_id == selection.product_id
                && device.location is None,
            (Some(bus), Some(address)) => device_of(selection) matches Ok(device)
                && device.vendor_id == selection.vendor_id && device.product_id
                == selection.product_id && (device.location matches Some((at, place)) && at == bus
                && place == address),
            _ => device_of(selection) is Err,
        },
{
}

/// The updates of a change: those that a write gives, one for each byte of the image from
/// the lowest address on for a restore, and the declared ones of the selected counter
/// family for a reset.
pub proof fn changes_make_what_they_ask_for(
    settings: SpecView,
    change: Change,
    facts: Facts,
    index: int,
)
    requires
        settings.memory_low <= settings.memory_high,
    ensures
        match change {
            Change::Write { updates } => (usb_updates(settings, change, facts) matches Ok(
                found,
            ) ==> (found matches Ok(made) && made == updates@)) && native_updates(
                settings,
                change,
                facts,
            ) == Ok::<Result<Seq<(u16, u8)>, NextView>, Seq<char>>(Ok(updates@)),
            Change::Restore { input_file } => (facts.image is None ==> usb_updates(
                settings,
                change,
                facts,
            ) == Ok::<Result<Seq<(u16, u8)>, NextView>, Seq<char>>(
                Err(NextView::ReadImage { path: input_file@ }),
            )) && (facts.image matches Some(Ok(bytes)) ==> {
                if bytes@.len() == settings.memory_high - settings.memory_low + 1 {
                    usb_updates(settings, change, facts) matches Ok(Ok(made)) && made.len()
                        == bytes@.len() && (0 <= index < made.len() ==> made[index].0
                        == settings.memory_low + index && made[index].1 == bytes@[index])
                } else {
                    usb_updates(settings, change, facts) is Err
                }
            }),
            Change::Reset { selection } => usb_updates(settings, change, facts) matches Ok(
                found,
            ) ==> (found matches Ok(made) && selected_updates(settings, selected_target(selection))
                == Ok::<Seq<(u16, u8)>, Seq<char>>(made)),
        },
{
}

/// A session over USB goes to the device that was selected.
pub open spec fn goes_to(
    selection: UsbSelection,
    device: UsbDeviceSelector,
    interface: u8,
    alternate_setting: u8,
) -> bool {
    &&& device.vendor_id == selection.vendor_id
    &&& device.product_id == selection.product_id
    &&& interface == selection.interface
    &&& alternate_setting == selection.alternate_setting
    &&& device.location is Some <==> selection.bus_number is Some
    &&& device.location matches Some((bus, address)) ==> selection.bus_number == Some(bus)
        && selection.device_address == Some(address)
}

/// What a command opens: the device that it selects, with its interface and its setting,
/// for the model that it names and for what it asks for.
pub proof fn commands_open_what_they_select(
    database: Map<Seq<char>, SpecView>,
    command: Command,
    facts: Facts,
    as_json: bool,
)
    requires
        command !is Models,
        command !is ParseId,
    ensures
        next_of(database, command, facts, as_json) matches Ok(
            NextView::UsbSession { device, interface, alternate_setting, settings, task },
        ) ==> match command {
            Command::UsbStatus { selection, model } => goes_to(
                selection,
                device,
                interface,
                alternate_setting,
            ) && settings == database[model@] && task == TaskView::Status,
            Command::UsbEepromDump { selection, model, output_file } => goes_to(
                selection,
                device,
                interface,
                alternate_setting,
            ) && settings == database[model@] && task == (TaskView::Dump {
                output_file: output_file@,
            }),
            Command::UsbEepromChange { selection, model, change, backup_file, .. } => goes_to(
                selection,
                device,
                interface,
                alternate_setting,
            ) && settings == database[model@] && (task matches TaskView::Change {
                updates,
                backup_file: file,
                ..
            } && file == backup_file@ && usb_updates(settings, change, facts) == Ok::<
                Result<Seq<(u16, u8)>, NextView>,
                Seq<char>,
            >(Ok(updates))),
            _ => false,
        },
        next_of(database, command, facts, as_json) matches Ok(
            NextView::UsbIdentity { device, interface, alternate_setting },
        ) ==> (command matches Command::UsbId { selection } && goes_to(
            selection,
            device,
            interface,
            alternate_setting,
        )),
        next_of(database, command, facts, as_json) matches Ok(
            NextView::UsbProbe { device, interface, alternate_setting },
        ) ==> (command matches Command::UsbD4Probe { selection } && goes_to(
            selection,
            device,
            interface,
            alternate_setting,
        )),
        next_of(database, command, facts, as_json) matches Ok(
            NextView::SnmpRead { settings, addresses },
        ) ==> (command matches Command::SnmpEepromRead { model, addresses: asked } && settings
            == database[model@] && addresses == asked@ && read_problem(settings, addresses)
            is None),
        next_of(database, command, facts, as_json) matches Ok(
            NextView::SnmpDump { settings, output_file },
        ) ==> (command matches Command::SnmpEepromDump { model, output_file: file } && settings
            == database[model@] && output_file == file@),
{
}

/// What a command opens through the stock driver: the printer that it selects, for the
/// model that it names and for what it asks for. Nothing hidden is read there.
pub proof fn native_commands_open_what_they_select(
    database: Map<Seq<char>, SpecView>,
    command: Command,
    facts: Facts,
    as_json: bool,
)
    requires
        command !is Models,
        command !is ParseId,
    ensures
        next_of(database, command, facts, as_json) matches Ok(
            NextView::NativeSession { selection: chosen, settings, task },
        ) ==> facts.candidate_found && match command {
            Command::WindowsNativeIdentity { selection, model } => chosen == selection && settings
                == database[model@] && task == TaskView::Identity,
            Command::WindowsNativeStatus { selection, model } => chosen == selection && settings
                == database[model@] && task == TaskView::Status,
            Command::WindowsNativeEepromRead { selection, model, addresses } => chosen == selection
                && settings == database[model@] && task == (TaskView::Read {
                addresses: addresses@,
            }) && sensitive_refusal(settings, addresses@) is None && read_problem(
                settings,
                addresses@,
            ) is None,
            Command::WindowsNativeEepromDump { selection, model, output_file } => chosen
                == selection && settings == database[model@] && task == (TaskView::Dump {
                output_file: output_file@,
            }),
            Command::WindowsNativeEepromChange { selection, model, change, backup_file, .. } =>
                chosen == selection && settings == database[model@] && (task matches TaskView::Change {
                updates,
                backup_file: file,
                ..
            } && file == backup_file@ && native_updates(settings, change, facts) == Ok::<
                Result<Seq<(u16, u8)>, NextView>,
                Seq<char>,
            >(Ok(updates)) && update_refusal(settings, updates) is None),
            _ => false,
        },
{
}

/// A status of a known model is asked for at once, and a model that is not known is named.
pub proof fn known_models_are_asked(
    database: Map<Seq<char>, SpecView>,
    selection: UsbSelection,
    model: String,
    facts: Facts,
    as_json: bool,
)
    requires
        selection.bus_number is Some <==> selection.device_address is Some,
    ensures
        next_of(database, Command::UsbStatus { selection, model }, facts, as_json) is Ok
            <==> database.contains_key(model@),
{
}

} // verus!
