//! The graphical interface as a state: what is selected, what is loaded, what
//! runs, and what changes when something happens.
use crate::builtin::builtin_models;
use crate::epson::{
    CounterResetTarget, EepromFieldEncoding, EpsonSpec, FieldView, OperationView, SpecView,
};
use crate::gui::{
    hints_for, CandidateView, DescriptorCandidate, DescriptorCandidateBackend, EepromRow,
    FixtureDevice, GuiState, Page, SourceMode,
};
use crate::platform::{reaches_usb, Platform, TransportEvent};
use crate::report::string_text;
use crate::selected::{
    blocked_report, outcome_view, report_blocked, report_of, report_operation, ReportView,
    SuccessView, UsbOperationResultReport, UsbOperationSuccess,
};
use crate::session::{ImageView, SelectedUsbSessionOutcome, UsbSessionCleanup};
use crate::text::{dec, dec_text};
use crate::text_map::texts;
use crate::traffic::{all_captured, decoders_reset, empty_trace, DebugTrafficTrace, TraceView};
use crate::view::{EepromFileField, FileFieldView, ValidatedRestoreImage};
use vstd::prelude::*;

verus! {

/// An EEPROM image that is shown, with the byte that is selected in it.
pub struct LoadedEeprom {
    pub path: String,
    pub bytes: Vec<u8>,
    pub start_address: usize,
    pub selected_offset: usize,
    pub model: Option<String>,
}

/// The contents of a shown image.
pub struct LoadedView {
    pub path: Seq<char>,
    pub bytes: Seq<u8>,
    pub start_address: usize,
    pub selected_offset: usize,
    pub model: Option<Seq<char>>,
}

impl View for LoadedEeprom {
    type V = LoadedView;

    open spec fn view(&self) -> LoadedView {
        LoadedView {
            path: self.path@,
            bytes: self.bytes@,
            start_address: self.start_address,
            selected_offset: self.selected_offset,
            model: string_text(self.model),
        }
    }
}

/// A byte of the image is selected, and its addresses fit a machine word.
pub open spec fn loaded_well(loaded: LoadedView) -> bool {
    &&& loaded.selected_offset < loaded.bytes.len()
    &&& loaded.start_address + loaded.bytes.len() <= usize::MAX
}

/// How the search for USB candidates stands.
pub enum UsbScanStatus {
    Scanning,
    Ready,
    Failed(String),
    Unavailable,
}

/// The contents of the state of a search.
pub enum ScanView {
    Scanning,
    Ready,
    Failed(Seq<char>),
    Unavailable,
}

impl View for UsbScanStatus {
    type V = ScanView;

    open spec fn view(&self) -> ScanView {
        match self {
            UsbScanStatus::Scanning => ScanView::Scanning,
            UsbScanStatus::Ready => ScanView::Ready,
            UsbScanStatus::Failed(message) => ScanView::Failed(message@),
            UsbScanStatus::Unavailable => ScanView::Unavailable,
        }
    }
}

/// A restore image that has been chosen, and what its examination showed.
pub struct RestoreImagePreflight {
    pub path: String,
    pub result: Result<ValidatedRestoreImage, String>,
}

/// The contents of an examined image.
pub struct PreflightView {
    pub path: Seq<char>,
    pub result: Result<(Seq<u8>, nat), Seq<char>>,
}

impl View for RestoreImagePreflight {
    type V = PreflightView;

    open spec fn view(&self) -> PreflightView {
        PreflightView {
            path: self.path@,
            result: match self.result {
                Ok(image) => Ok((image.bytes@, image.update_count as nat)),
                Err(message) => Err(message@),
            },
        }
    }
}

/// An operation that waits for its confirmation.
pub enum PendingUsbOperation {
    Write { address: String, value: String, backup_file: Option<String>, confirmation: String },
    Restore {
        restore_image: Option<RestoreImagePreflight>,
        backup_file: Option<String>,
        confirmation: String,
    },
    Reset { target: CounterResetTarget, backup_file: Option<String>, confirmation: String },
}

/// The contents of a waiting operation.
pub enum PendingView {
    Write {
        address: Seq<char>,
        value: Seq<char>,
        backup_file: Option<Seq<char>>,
        confirmation: Seq<char>,
    },
    Restore {
        restore_image: Option<PreflightView>,
        backup_file: Option<Seq<char>>,
        confirmation: Seq<char>,
    },
    Reset {
        target: CounterResetTarget,
        backup_file: Option<Seq<char>>,
        confirmation: Seq<char>,
    },
}

/// The contents of an optional examined image.
pub open spec fn preflight_view(image: Option<RestoreImagePreflight>) -> Option<PreflightView> {
    match image {
        Some(image) => Some(image@),
        None => None,
    }
}

impl View for PendingUsbOperation {
    type V = PendingView;

    open spec fn view(&self) -> PendingView {
        match self {
            PendingUsbOperation::Write { address, value, backup_file, confirmation } =>
                PendingView::Write {
                address: address@,
                value: value@,
                backup_file: string_text(*backup_file),
                confirmation: confirmation@,
            },
            PendingUsbOperation::Restore { restore_image, backup_file, confirmation } =>
                PendingView::Restore {
                restore_image: preflight_view(*restore_image),
                backup_file: string_text(*backup_file),
                confirmation: confirmation@,
            },
            PendingUsbOperation::Reset { target, backup_file, confirmation } =>
                PendingView::Reset {
                target: *target,
                backup_file: string_text(*backup_file),
                confirmation: confirmation@,
            },
        }
    }
}

/// The state of the graphical interface.
pub struct ReinkGui {
    pub platform: Platform,
    pub state: GuiState,
    pub source_mode: SourceMode,
    pub selected_fixture: Option<usize>,
    pub show_validation_report: bool,
    pub loaded_eeprom: Option<LoadedEeprom>,
    pub usb_candidates: Vec<DescriptorCandidate>,
    pub selected_usb_candidate: Option<usize>,
    pub selected_usb_model: Option<String>,
    pub usb_scan_status: UsbScanStatus,
    pub file_error: Option<String>,
    pub operation_running: bool,
    pub usb_operation_result: Option<UsbOperationResultReport>,
    pub pending_usb_operation: Option<PendingUsbOperation>,
    pub model_filter: String,
    pub usb_model_filter: String,
    pub debug_traffic: DebugTrafficTrace,
}

/// The contents of the state.
pub struct GuiView {
    pub platform: Platform,
    pub state: GuiState,
    pub source_mode: SourceMode,
    pub selected_fixture: Option<usize>,
    pub show_validation_report: bool,
    pub loaded_eeprom: Option<LoadedView>,
    pub usb_candidates: Seq<CandidateView>,
    pub selected_usb_candidate: Option<usize>,
    pub selected_usb_model: Option<Seq<char>>,
    pub usb_scan_status: ScanView,
    pub file_error: Option<Seq<char>>,
    pub operation_running: bool,
    pub usb_operation_result: Option<ReportView>,
    pub pending_usb_operation: Option<PendingView>,
    pub model_filter: Seq<char>,
    pub usb_model_filter: Seq<char>,
    pub debug_traffic: TraceView,
}

/// The contents of several candidates.
pub open spec fn candidate_views(candidates: Seq<DescriptorCandidate>) -> Seq<CandidateView> {
    Seq::new(candidates.len(), |i: int| candidates[i]@)
}

/// The contents of an optional image.
pub open spec fn loaded_view(loaded: Option<LoadedEeprom>) -> Option<LoadedView> {
    match loaded {
        Some(loaded) => Some(loaded@),
        None => None,
    }
}

/// The contents of an optional report.
pub open spec fn optional_report(report: Option<UsbOperationResultReport>) -> Option<ReportView> {
    match report {
        Some(report) => Some(report@),
        None => None,
    }
}

/// The contents of an optional waiting operation.
pub open spec fn pending_view(pending: Option<PendingUsbOperation>) -> Option<PendingView> {
    match pending {
        Some(pending) => Some(pending@),
        None => None,
    }
}

impl View for ReinkGui {
    type V = GuiView;

    open spec fn view(&self) -> GuiView {
        GuiView {
            platform: self.platform,
            state: self.state,
            source_mode: self.source_mode,
            selected_fixture: self.selected_fixture,
            show_validation_report: self.show_validation_report,
            loaded_eeprom: loaded_view(self.loaded_eeprom),
            usb_candidates: candidate_views(self.usb_candidates@),
            selected_usb_candidate: self.selected_usb_candidate,
            selected_usb_model: string_text(self.selected_usb_model),
            usb_scan_status: self.usb_scan_status@,
            file_error: string_text(self.file_error),
            operation_running: self.operation_running,
            usb_operation_result: optional_report(self.usb_operation_result),
            pending_usb_operation: pending_view(self.pending_usb_operation),
            model_filter: self.model_filter@,
            usb_model_filter: self.usb_model_filter@,
            debug_traffic: self.debug_traffic@,
        }
    }
}

/// The candidate that is selected, if it is still listed.
pub open spec fn chosen_candidate(gui: GuiView) -> Option<CandidateView> {
    match gui.selected_usb_candidate {
        Some(index) => if index < gui.usb_candidates.len() {
            Some(gui.usb_candidates[index as int])
        } else {
            None
        },
        None => None,
    }
}

/// The expected model of a candidate: one that is selected and known.
pub open spec fn model_for_candidate(
    models: Map<Seq<char>, SpecView>,
    candidate_chosen: bool,
    selected_model: Option<Seq<char>>,
) -> Option<Seq<char>> {
    match selected_model {
        Some(model) => if candidate_chosen && models.contains_key(model) {
            Some(model)
        } else {
            None
        },
        None => None,
    }
}

/// The expected model of the selected candidate.
pub open spec fn expected_model(gui: GuiView) -> Option<Seq<char>> {
    model_for_candidate(
        gui.state.database@,
        chosen_candidate(gui) is Some,
        gui.selected_usb_model,
    )
}

/// The fixture that is selected.
pub open spec fn chosen_fixture(gui: GuiView) -> FixtureDevice {
    gui.state.fixtures@[gui.state.selected_fixture as int]
}

/// What the source of the shown data is called.
pub open spec fn source_text(gui: GuiView) -> Seq<char> {
    match (chosen_candidate(gui), gui.loaded_eeprom, gui.selected_fixture) {
        (Some(candidate), _, _) => candidate.alias,
        (None, Some(file), _) => file.path,
        (None, None, Some(_)) => chosen_fixture(gui).label@,
        (None, None, None) => "No printer selected"@,
    }
}

/// A fixture is selected, and fixtures are enabled.
pub open spec fn fixture_shown(gui: GuiView) -> bool {
    gui.source_mode == SourceMode::Fixtures && gui.selected_fixture is Some
}

/// What is told of the search for candidates.
pub open spec fn scan_text(gui: GuiView) -> Seq<char> {
    match gui.usb_scan_status {
        ScanView::Scanning => "Scanning USB printer descriptors…"@,
        ScanView::Ready => dec_text(gui.usb_candidates.len())
            + " USB descriptor candidate(s) found"@,
        ScanView::Failed(error) => "USB descriptor scan failed: "@ + error,
        ScanView::Unavailable => "USB descriptor enumeration is unavailable on Windows."@,
    }
}

/// The address of the selected byte.
pub open spec fn shown_address(gui: GuiView) -> nat {
    match gui.loaded_eeprom {
        Some(file) => (file.start_address + file.selected_offset) as nat,
        None => chosen_fixture(gui).eeprom_rows@[gui.state.selected_eeprom_row as int].address as nat,
    }
}

/// The value of the selected byte.
pub open spec fn shown_value(gui: GuiView) -> u8 {
    match gui.loaded_eeprom {
        Some(file) => file.bytes[file.selected_offset as int],
        None => chosen_fixture(gui).eeprom_rows@[gui.state.selected_eeprom_row as int].value,
    }
}

/// The bytes that are shown.
pub open spec fn shown_bytes(gui: GuiView) -> Seq<u8> {
    match gui.loaded_eeprom {
        Some(file) => file.bytes,
        None => chosen_fixture(gui).eeprom_bytes@,
    }
}

/// A read-only field as a field of an image.
pub open spec fn as_file_field(field: FieldView) -> FileFieldView {
    FileFieldView {
        address: field.address as usize,
        end_address: field.end_address as usize,
        label: field.label,
        encoding: field.encoding,
        confidence: Some(field.confidence),
        evidence_note: Some(field.evidence_note),
        sensitive: field.sensitive,
    }
}

/// An address of an operation as a field of an image.
pub open spec fn byte_field(operation: OperationView, index: int) -> FileFieldView {
    FileFieldView {
        address: operation.addresses[index] as usize,
        end_address: operation.addresses[index] as usize,
        label: operation.description,
        encoding: EepromFieldEncoding::RawBytes,
        confidence: None,
        evidence_note: None,
        sensitive: false,
    }
}

/// The addresses of operations as fields of an image, one operation after another.
pub open spec fn operation_fields(operations: Seq<OperationView>) -> Seq<FileFieldView>
    decreases operations.len(),
{
    if operations.len() == 0 {
        seq![]
    } else {
        operation_fields(operations.drop_last()) + Seq::new(
            operations.last().addresses.len(),
            |i: int| byte_field(operations.last(), i),
        )
    }
}

/// The fields of a model: the read-only ones, or where there are none the
/// addresses of its operations.
pub open spec fn model_fields(settings: SpecView) -> Seq<FileFieldView> {
    if settings.read_only_fields.len() == 0 {
        operation_fields(settings.memory_operations)
    } else {
        Seq::new(
            settings.read_only_fields.len(),
            |i: int| as_file_field(settings.read_only_fields[i]),
        )
    }
}

/// The fields of the shown image, which need a known model.
pub open spec fn shown_fields(gui: GuiView) -> Seq<FileFieldView> {
    match gui.loaded_eeprom {
        Some(LoadedView { model: Some(model), .. }) => if gui.state.database@.contains_key(model) {
            model_fields(gui.state.database@[model])
        } else {
            seq![]
        },
        _ => seq![],
    }
}

/// The place of the first field at an address.
pub open spec fn field_place(fields: Seq<FileFieldView>, address: nat) -> int
    decreases fields.len(),
{
    if fields.len() == 0 {
        0
    } else {
        let place = field_place(fields.drop_last(), address);
        if place < fields.len() - 1 {
            place
        } else if fields.last().address == address {
            fields.len() - 1
        } else {
            fields.len() as int
        }
    }
}

/// What the selected byte is called.
pub open spec fn shown_field_text(gui: GuiView) -> Seq<char> {
    let place = field_place(shown_fields(gui), shown_address(gui));
    if place < shown_fields(gui).len() {
        shown_fields(gui)[place].label
    } else if gui.loaded_eeprom is Some {
        "Raw EEPROM byte"@
    } else {
        chosen_fixture(gui).eeprom_rows@[gui.state.selected_eeprom_row as int].label@
    }
}

/// The contents of several fields.
pub open spec fn file_field_views(fields: Seq<EepromFileField>) -> Seq<FileFieldView> {
    Seq::new(fields.len(), |i: int| fields[i]@)
}

/// Selects the expected model for a candidate: one that is selected and known.
pub fn selected_model_for_usb_candidate<'a>(
    state: &GuiState,
    candidate: Option<&DescriptorCandidate>,
    selected_model: Option<&'a str>,
) -> (model: Option<&'a str>)
    requires
        state.well_formed(),
    ensures
        model_for_candidate(
            state.database@,
            candidate is Some,
            match selected_model {
                Some(model) => Some(model@),
                None => None,
            },
        ) == match model {
            Some(model) => Some(model@),
            None => None,
        },
{
    if candidate.is_none() {
        return None;
    }
    match selected_model {
        Some(model) => if state.model_spec(model).is_some() {
            Some(model)
        } else {
            None
        },
        None => None,
    }
}

/// What a search for candidates begins with: none is made where printers cannot
/// be reached over USB.
pub open spec fn begun_scan(platform: Platform) -> ScanView {
    if reaches_usb(platform) {
        ScanView::Scanning
    } else {
        ScanView::Unavailable
    }
}

/// There are no candidates and no operations, and there is no search for them.
pub open spec fn without_usb(gui: GuiView) -> bool {
    &&& gui.usb_scan_status == ScanView::Unavailable
    &&& gui.usb_candidates.len() == 0
    &&& !gui.operation_running
    &&& gui.usb_operation_result is None
    &&& gui.pending_usb_operation is None
}

fn begin_scan(platform: Platform) -> (status: UsbScanStatus)
    ensures
        status@ == begun_scan(platform),
{
    if platform.has_usb() {
        UsbScanStatus::Scanning
    } else {
        UsbScanStatus::Unavailable
    }
}

impl ReinkGui {
    /// The pages are well formed, and so is the shown image. Where printers cannot
    /// be reached over USB, there is nothing that only USB could have brought.
    pub open spec fn well_formed(&self) -> bool {
        &&& self.state.well_formed()
        &&& !reaches_usb(self.platform) ==> without_usb(self@)
        &&& self@.loaded_eeprom matches Some(loaded) ==> loaded_well(loaded)
    }

    /// The interface as it starts on a platform, while it searches for candidates
    /// if it can.
    pub fn new(source_mode: SourceMode, platform: Platform) -> (gui: Self)
        ensures
            gui.well_formed(),
            gui.state.database@ == builtin_models(),
            gui.state.page == Page::Status,
            gui.state.selected_fixture == 0,
            gui.state.selected_eeprom_row == 0,
            gui@ == (GuiView {
                platform,
                state: gui.state,
                source_mode,
                selected_fixture: if source_mode == SourceMode::Fixtures {
                    Some(0)
                } else {
                    None
                },
                show_validation_report: false,
                loaded_eeprom: None,
                usb_candidates: seq![],
                selected_usb_candidate: None,
                selected_usb_model: None,
                usb_scan_status: begun_scan(platform),
                file_error: None,
                operation_running: false,
                usb_operation_result: None,
                pending_usb_operation: None,
                model_filter: seq![],
                usb_model_filter: seq![],
                debug_traffic: empty_trace(),
            }),
    {
        let state = match GuiState::new() {
            Ok(state) => state,
            Err(_) => vstd::pervasive::unreached(),
        };
        let gui = ReinkGui {
            platform,
            state,
            source_mode,
            selected_fixture: if source_mode.fixtures_enabled() {
                Some(0)
            } else {
                None
            },
            show_validation_report: false,
            loaded_eeprom: None,
            usb_candidates: Vec::new(),
            selected_usb_candidate: None,
            selected_usb_model: None,
            usb_scan_status: begin_scan(platform),
            file_error: None,
            operation_running: false,
            usb_operation_result: None,
            pending_usb_operation: None,
            model_filter: String::new(),
            usb_model_filter: String::new(),
            debug_traffic: DebugTrafficTrace::new(),
        };
        proof {
            assert(gui@.usb_candidates =~= seq![]);
            assert(gui@.model_filter =~= seq![]);
            assert(gui@.usb_model_filter =~= seq![]);
        }
        gui
    }

    /// Adds events captured under the explicit operation's sampled debug opt-in.
    ///
    /// The trace retains these events only because the selected operation was
    /// started after capture had been enabled.
    pub fn append_recorded_transport_events(&mut self, events: Vec<TransportEvent>) -> (kept: usize)
        ensures
            final(self)@ == (GuiView {
                debug_traffic: all_captured(old(self)@.debug_traffic, events@),
                ..old(self)@
            }),
            kept == events@.len(),
            final(self).state == old(self).state,
            final(self).loaded_eeprom == old(self).loaded_eeprom,
    {
        self.debug_traffic.append_captured_events(events)
    }

    pub fn selected_usb_candidate(&self) -> (candidate: Option<&DescriptorCandidate>)
        ensures
            chosen_candidate(self@) == match candidate {
                Some(candidate) => Some(candidate@),
                None => None,
            },
    {
        match self.selected_usb_candidate {
            Some(index) => if index < self.usb_candidates.len() {
                Some(&self.usb_candidates[index])
            } else {
                None
            },
            None => None,
        }
    }

    pub fn selected_usb_model(&self) -> (model: Option<&str>)
        requires
            self.well_formed(),
        ensures
            expected_model(self@) == match model {
                Some(model) => Some(model@),
                None => None,
            },
    {
        let selected: Option<&str> = match &self.selected_usb_model {
            Some(model) => Some(model.as_str()),
            None => None,
        };
        selected_model_for_usb_candidate(&self.state, self.selected_usb_candidate(), selected)
    }

    pub fn source_label(&self) -> (label: String)
        requires
            self.well_formed(),
        ensures
            label@ == source_text(self@),
    {
        match (self.selected_usb_candidate(), &self.loaded_eeprom) {
            (Some(candidate), _) => candidate.alias.clone(),
            (None, Some(file)) => file.path.clone(),
            (None, None) => if self.selected_fixture.is_some() {
                self.state.selected_fixture().label.to_owned()
            } else {
                String::from_str("No printer selected")
            },
        }
    }

    pub fn fixture_selected(&self) -> (selected: bool)
        ensures
            selected == fixture_shown(self@),
    {
        self.source_mode.fixtures_enabled() && self.selected_fixture.is_some()
    }

    pub fn usb_scan_status_label(&self) -> (label: String)
        ensures
            label@ == scan_text(self@),
    {
        match &self.usb_scan_status {
            UsbScanStatus::Scanning => String::from_str("Scanning USB printer descriptors…"),
            UsbScanStatus::Ready => dec(self.usb_candidates.len() as u64).concat(
                " USB descriptor candidate(s) found",
            ),
            UsbScanStatus::Failed(error) => String::from_str(
                "USB descriptor scan failed: ",
            ).concat(error.as_str()),
            UsbScanStatus::Unavailable => String::from_str(
                "USB descriptor enumeration is unavailable on Windows.",
            ),
        }
    }

    pub fn selected_address(&self) -> (address: usize)
        requires
            self.well_formed(),
        ensures
            address == shown_address(self@),
    {
        match &self.loaded_eeprom {
            Some(file) => file.start_address + file.selected_offset,
            None => self.state.selected_eeprom_row().address as usize,
        }
    }

    pub fn selected_value(&self) -> (value: u8)
        requires
            self.well_formed(),
        ensures
            value == shown_value(self@),
    {
        match &self.loaded_eeprom {
            Some(file) => file.bytes[file.selected_offset],
            None => self.state.selected_eeprom_row().value,
        }
    }

    pub fn eeprom_bytes(&self) -> (bytes: &[u8])
        requires
            self.well_formed(),
        ensures
            bytes@ == shown_bytes(self@),
    {
        match &self.loaded_eeprom {
            Some(file) => file.bytes.as_slice(),
            None => self.state.selected_fixture().eeprom_bytes.as_slice(),
        }
    }
}

fn field_of_image(field: &crate::epson::EepromField) -> (made: EepromFileField)
    ensures
        made@ == as_file_field(field@),
{
    EepromFileField {
        address: field.address as usize,
        end_address: field.end_address as usize,
        label: field.label.clone(),
        encoding: field.encoding,
        confidence: Some(field.confidence),
        evidence_note: Some(field.evidence_note.clone()),
        sensitive: field.sensitive,
    }
}

fn push_operation_fields(
    fields: &mut Vec<EepromFileField>,
    operation: &crate::epson::MemoryOperation,
)
    ensures
        file_field_views(final(fields)@) == file_field_views(old(fields)@) + Seq::new(
            operation@.addresses.len(),
            |i: int| byte_field(operation@, i),
        ),
{
    let ghost start = fields@;
    let ghost expected = Seq::new(
        operation@.addresses.len(),
        |i: int| byte_field(operation@, i),
    );
    let mut index: usize = 0;
    proof {
        assert(file_field_views(start) + expected.take(0) =~= file_field_views(start));
    }
    while index < operation.addresses.len()
        invariant
            index <= operation.addresses@.len(),
            expected == Seq::new(
                operation@.addresses.len(),
                |i: int| byte_field(operation@, i),
            ),
            file_field_views(fields@) == file_field_views(start) + expected.take(index as int),
        decreases operation.addresses.len() - index,
    {
        let address: usize = operation.addresses[index] as usize;
        let ghost before = fields@;
        let field = EepromFileField {
            address,
            end_address: address,
            label: operation.description.clone(),
            encoding: EepromFieldEncoding::RawBytes,
            confidence: None,
            evidence_note: None,
            sensitive: false,
        };
        fields.push(field);
        proof {
            assert(fields@.last()@ == byte_field(operation@, index as int));
            assert(file_field_views(fields@) =~= file_field_views(before).push(
                expected[index as int],
            ));
            assert(expected.take(index + 1) =~= expected.take(index as int).push(
                expected[index as int],
            ));
            assert(file_field_views(fields@) =~= file_field_views(start) + expected.take(
                index + 1,
            ));
        }
        index = index + 1;
    }
    proof {
        assert(expected.take(index as int) =~= expected);
    }
}

/// Lists the fields of a model.
pub fn list_model_fields(settings: &EpsonSpec) -> (fields: Vec<EepromFileField>)
    ensures
        file_field_views(fields@) == model_fields(settings@),
{
    let mut fields: Vec<EepromFileField> = Vec::new();
    let mut index: usize = 0;
    proof {
        assert(file_field_views(fields@) =~= seq![]);
    }
    if settings.read_only_fields.len() == 0 {
        let ghost operations = settings@.memory_operations;
        proof {
            assert(operations.take(0) =~= seq![]);
        }
        while index < settings.memory_operations.len()
            invariant
                index <= settings.memory_operations@.len(),
                operations == settings@.memory_operations,
                file_field_views(fields@) == operation_fields(operations.take(index as int)),
            decreases settings.memory_operations.len() - index,
        {
            push_operation_fields(&mut fields, &settings.memory_operations[index]);
            proof {
                let longer = operations.take(index + 1);
                assert(longer.drop_last() =~= operations.take(index as int));
                assert(longer.last() == settings.memory_operations@[index as int]@);
            }
            index = index + 1;
        }
        proof {
            assert(operations.take(index as int) =~= operations);
        }
        return fields;
    }
    let ghost all = settings@.read_only_fields;
    while index < settings.read_only_fields.len()
        invariant
            index <= settings.read_only_fields@.len(),
            all == settings@.read_only_fields,
            fields@.len() == index,
            forall|i: int|
                0 <= i < index ==> (#[trigger] fields@[i])@ == as_file_field(all[i]),
        decreases settings.read_only_fields.len() - index,
    {
        let field = &settings.read_only_fields[index];
        proof {
            assert(all[index as int] == field@);
        }
        fields.push(field_of_image(field));
        index = index + 1;
    }
    proof {
        assert(file_field_views(fields@) =~= model_fields(settings@));
    }
    fields
}

impl ReinkGui {
    pub fn file_fields(&self) -> (fields: Vec<EepromFileField>)
        requires
            self.well_formed(),
        ensures
            file_field_views(fields@) == shown_fields(self@),
    {
        if let Some(file) = &self.loaded_eeprom {
            if let Some(model) = &file.model {
                if let Some(settings) = self.state.model_spec(model.as_str()) {
                    return list_model_fields(settings);
                }
            }
        }
        let fields: Vec<EepromFileField> = Vec::new();
        proof {
            assert(file_field_views(fields@) =~= seq![]);
        }
        fields
    }

    pub fn selected_field_label(&self) -> (label: String)
        requires
            self.well_formed(),
        ensures
            label@ == shown_field_text(self@),
    {
        let fields = self.file_fields();
        let address: usize = self.selected_address();
        let ghost views = file_field_views(fields@);
        let mut index: usize = 0;
        proof {
            assert(views.take(0) =~= seq![]);
        }
        while index < fields.len()
            invariant
                index <= fields@.len(),
                views == file_field_views(fields@),
                views == shown_fields(self@),
                address == shown_address(self@),
                field_place(views.take(index as int), address as nat) == index,
            decreases fields.len() - index,
        {
            proof {
                let longer = views.take(index + 1);
                assert(longer.drop_last() =~= views.take(index as int));
                assert(longer.last() == fields@[index as int]@);
            }
            if fields[index].address == address {
                proof {
                    lemma_field_place(views, address as nat, index + 1);
                }
                return fields[index].label.clone();
            }
            index = index + 1;
        }
        proof {
            assert(views.take(index as int) =~= views);
        }
        if self.loaded_eeprom.is_some() {
            String::from_str("Raw EEPROM byte")
        } else {
            self.state.selected_eeprom_row().label.to_owned()
        }
    }

    /// Selects the byte at an address, if it is shown.
    pub fn select_eeprom_address(&mut self, address: usize)
        requires
            old(self).well_formed(),
        ensures
            final(self).well_formed(),
            final(self)@ == address_selected(old(self)@, address),
    {
        if let Some(file) = &mut self.loaded_eeprom {
            if address >= file.start_address {
                let offset: usize = address - file.start_address;
                if offset < file.bytes.len() {
                    file.selected_offset = offset;
                }
            }
            return;
        }
        let count: usize = self.state.selected_fixture().eeprom_rows.len();
        let ghost rows = self.state.fixtures@[self.state.selected_fixture as int].eeprom_rows@;
        let mut index: usize = 0;
        while index < count
            invariant
                self.state == old(self).state,
                self@ == old(self)@,
                self.well_formed(),
                self.loaded_eeprom is None,
                rows == self.state.fixtures@[self.state.selected_fixture as int].eeprom_rows@,
                index <= count == rows.len(),
                forall|i: int| 0 <= i < index ==> (#[trigger] rows[i]).address != address,
            decreases count - index,
        {
            let row_address: usize = self.state.selected_fixture().eeprom_rows[index].address
                as usize;
            if row_address == address {
                self.state.select_eeprom_row(index);
                proof {
                    lemma_row_place(rows, address, index as int);
                }
                return;
            }
            index = index + 1;
        }
        proof {
            lemma_row_place(rows, address, index as int);
        }
    }
}

proof fn lemma_field_place(fields: Seq<FileFieldView>, address: nat, count: int)
    requires
        0 <= count <= fields.len(),
        field_place(fields.take(count), address) < count,
    ensures
        field_place(fields, address) == field_place(fields.take(count), address),
    decreases fields.len(),
{
    if count == fields.len() {
        assert(fields.take(count) =~= fields);
    } else {
        assert(fields.drop_last().take(count) =~= fields.take(count));
        lemma_field_place(fields.drop_last(), address, count);
    }
}

/// The place of the first row at an address.
pub open spec fn row_place(rows: Seq<EepromRow>, address: usize) -> int
    decreases rows.len(),
{
    if rows.len() == 0 {
        0
    } else {
        let place = row_place(rows.drop_last(), address);
        if place < rows.len() - 1 {
            place
        } else if rows.last().address == address {
            rows.len() - 1
        } else {
            rows.len() as int
        }
    }
}

proof fn lemma_row_place(rows: Seq<EepromRow>, address: usize, index: int)
    requires
        0 <= index <= rows.len(),
        forall|i: int| 0 <= i < index ==> (#[trigger] rows[i]).address != address,
        index < rows.len() ==> rows[index].address == address,
    ensures
        row_place(rows, address) == index,
    decreases rows.len(),
{
    if rows.len() > 0 {
        let shorter = rows.drop_last();
        if index < rows.len() {
            if index < shorter.len() {
                lemma_row_place(shorter, address, index);
            } else {
                lemma_row_place(shorter, address, shorter.len() as int);
            }
        } else {
            lemma_row_place(shorter, address, shorter.len() as int);
        }
    }
}

/// The state after the byte at an address has been selected: one that is not
/// shown changes nothing.
pub open spec fn address_selected(gui: GuiView, address: usize) -> GuiView {
    match gui.loaded_eeprom {
        Some(file) => if file.start_address <= address < file.start_address + file.bytes.len() {
            GuiView {
                loaded_eeprom: Some(
                    LoadedView {
                        selected_offset: (address - file.start_address) as usize,
                        ..file
                    },
                ),
                ..gui
            }
        } else {
            gui
        },
        None => {
            let place = row_place(chosen_fixture(gui).eeprom_rows@, address);
            if place < chosen_fixture(gui).eeprom_rows@.len() {
                GuiView {
                    state: GuiState { selected_eeprom_row: place as usize, ..gui.state },
                    ..gui
                }
            } else {
                gui
            }
        },
    }
}

/// What a search has found of a USB printer.
#[derive(Clone, Copy, Debug)]
pub struct UsbPrinterCandidate {
    pub vendor_id: u16,
    pub product_id: u16,
    pub bus_number: u8,
    pub device_address: u8,
    pub interface_number: u8,
    pub alternate_setting: u8,
}

/// A found printer is listed under its place, with the models that its
/// identifiers hint at.
pub open spec fn listed_as(
    listed: CandidateView,
    found: UsbPrinterCandidate,
    index: int,
    models: Map<Seq<char>, SpecView>,
) -> bool {
    &&& listed.alias == "usb-"@ + dec_text((index + 1) as nat)
    &&& listed.backend == DescriptorCandidateBackend::LibUsb
    &&& listed.vendor_id == found.vendor_id
    &&& listed.product_id == found.product_id
    &&& listed.bus_number == Some(found.bus_number)
    &&& listed.device_address == Some(found.device_address)
    &&& listed.interface_number == Some(found.interface_number)
    &&& listed.alternate_setting == Some(found.alternate_setting)
    &&& hints_for(listed.model_hints, models, found.vendor_id, found.product_id)
}

/// The found printers are listed in their order.
pub open spec fn all_listed(
    listed: Seq<CandidateView>,
    found: Seq<UsbPrinterCandidate>,
    models: Map<Seq<char>, SpecView>,
) -> bool {
    &&& listed.len() == found.len()
    &&& forall|i: int|
        0 <= i < found.len() ==> listed_as(#[trigger] listed[i], found[i], i, models)
}

/// The state after a file has been opened, or could not be.
pub open spec fn file_opened(
    gui: GuiView,
    path: Seq<char>,
    read: Result<Seq<u8>, Seq<char>>,
) -> GuiView {
    match read {
        Err(error) => GuiView {
            file_error: Some("Unable to open EEPROM file: "@ + error),
            ..gui
        },
        Ok(bytes) => if bytes.len() == 0 {
            GuiView { file_error: Some("The selected EEPROM file is empty."@), ..gui }
        } else {
            GuiView {
                state: GuiState { page: Page::Eeprom, ..gui.state },
                selected_fixture: None,
                show_validation_report: false,
                loaded_eeprom: Some(
                    LoadedView {
                        path,
                        bytes,
                        start_address: 0,
                        selected_offset: 0,
                        model: None,
                    },
                ),
                selected_usb_candidate: None,
                selected_usb_model: None,
                file_error: None,
                usb_operation_result: None,
                pending_usb_operation: None,
                ..gui
            }
        },
    }
}

/// The bytes that have been read, or why they could not be.
pub open spec fn read_view(read: Result<Vec<u8>, String>) -> Result<Seq<u8>, Seq<char>> {
    match read {
        Ok(bytes) => Ok(bytes@),
        Err(error) => Err(error@),
    }
}

/// The state after a candidate has been selected: a single hint is taken as
/// the expected model, and nothing of an earlier source stays.
pub open spec fn candidate_selected(gui: GuiView, index: usize) -> GuiView {
    if index < gui.usb_candidates.len() {
        let hints = gui.usb_candidates[index as int].model_hints;
        GuiView {
            selected_usb_candidate: Some(index),
            selected_usb_model: if hints.len() == 1 {
                Some(hints[0])
            } else {
                None
            },
            loaded_eeprom: None,
            selected_fixture: None,
            show_validation_report: false,
            usb_operation_result: None,
            pending_usb_operation: None,
            ..gui
        }
    } else {
        gui
    }
}

/// The state after a fixture has been selected.
pub open spec fn fixture_chosen(gui: GuiView, index: usize) -> GuiView {
    if index < gui.state.fixtures@.len() {
        GuiView {
            state: GuiState { selected_fixture: index, selected_eeprom_row: 0, ..gui.state },
            loaded_eeprom: None,
            selected_usb_candidate: None,
            selected_usb_model: None,
            selected_fixture: Some(index),
            show_validation_report: false,
            usb_operation_result: None,
            pending_usb_operation: None,
            ..gui
        }
    } else {
        gui
    }
}

/// The state after a model has been chosen for the shown image, which does not
/// touch an image whose model the printer has confirmed.
pub open spec fn file_model_chosen(gui: GuiView, model: Seq<char>) -> GuiView {
    match gui.loaded_eeprom {
        Some(file) => if chosen_candidate(gui) is Some {
            gui
        } else {
            GuiView {
                loaded_eeprom: Some(LoadedView { model: Some(model), ..file }),
                ..gui
            }
        },
        None => gui,
    }
}

/// What an operation is started with.
pub struct StartedOperation {
    pub candidate: DescriptorCandidate,
    pub expected_model: String,
    pub record_traffic: bool,
}

/// What becomes of the wish to start an operation: nothing where printers cannot
/// be reached over USB, while another one runs or without a candidate, a report while candidates are searched or
/// without an expected model, and otherwise a start.
pub open spec fn operation_started(gui: GuiView) -> (GuiView, bool) {
    if !reaches_usb(gui.platform) || gui.operation_running {
        (gui, false)
    } else if gui.usb_scan_status == ScanView::Scanning {
        (
            GuiView {
                usb_operation_result: Some(
                    blocked_report(
                        "Wait for USB candidate enumeration to finish before starting an operation."@,
                    ),
                ),
                ..gui
            },
            false,
        )
    } else if chosen_candidate(gui) is None {
        (gui, false)
    } else if expected_model(gui) is None {
        (
            GuiView {
                usb_operation_result: Some(
                    blocked_report(
                        "Select one expected bundled model for the selected candidate before opening USB."@,
                    ),
                ),
                ..gui
            },
            false,
        )
    } else {
        (
            GuiView {
                operation_running: true,
                usb_operation_result: None,
                debug_traffic: if gui.debug_traffic.capture_enabled {
                    decoders_reset(gui.debug_traffic)
                } else {
                    gui.debug_traffic
                },
                ..gui
            },
            true,
        )
    }
}

/// The state after an operation has come to its end: what has been recorded is
/// added to the trace, a saved image is shown, and the result is told.
pub open spec fn operation_ended(
    gui: GuiView,
    operation: Result<SuccessView, Seq<char>>,
    cleanup: UsbSessionCleanup,
    events: Seq<TransportEvent>,
) -> GuiView {
    let noted = GuiView {
        operation_running: false,
        debug_traffic: all_captured(gui.debug_traffic, events),
        usb_operation_result: Some(report_of(operation, cleanup)),
        ..gui
    };
    if !reaches_usb(gui.platform) {
        gui
    } else if let Ok(SuccessView::Dump { image, output_file }) = operation {
        GuiView {
            state: GuiState { page: Page::Eeprom, ..gui.state },
            loaded_eeprom: Some(
                LoadedView {
                    path: output_file,
                    bytes: image.bytes,
                    start_address: image.start_address as usize,
                    selected_offset: 0,
                    model: Some(image.model),
                },
            ),
            selected_fixture: None,
            file_error: None,
            show_validation_report: false,
            ..noted
        }
    } else {
        noted
    }
}

impl DescriptorCandidate {
    /// A copy of the candidate.
    pub fn duplicate(&self) -> (copy: Self)
        ensures
            copy@ == self@,
    {
        let mut model_hints: Vec<String> = Vec::new();
        while model_hints.len() < self.model_hints.len()
            invariant
                model_hints@.len() <= self.model_hints@.len(),
                forall|i: int|
                    0 <= i < model_hints@.len() ==> (#[trigger] model_hints@[i])@
                        == self.model_hints@[i]@,
            decreases self.model_hints.len() - model_hints.len(),
        {
            let index: usize = model_hints.len();
            model_hints.push(self.model_hints[index].clone());
        }
        proof {
            assert(texts(model_hints@) =~= texts(self.model_hints@));
        }
        DescriptorCandidate {
            alias: self.alias.clone(),
            backend: self.backend,
            vendor_id: self.vendor_id,
            product_id: self.product_id,
            bus_number: self.bus_number,
            device_address: self.device_address,
            interface_number: self.interface_number,
            alternate_setting: self.alternate_setting,
            model_hints,
        }
    }
}

impl ReinkGui {
    pub fn navigate_to(&mut self, page: Page)
        requires
            old(self).well_formed(),
        ensures
            final(self).well_formed(),
            final(self)@ == (GuiView {
                state: GuiState { page, ..old(self)@.state },
                ..old(self)@
            }),
    {
        self.state.navigate_to(page);
    }

    /// Takes over a file that has been read, or tells why it could not be.
    pub fn open_eeprom_file(&mut self, path: &str, read: Result<Vec<u8>, String>)
        requires
            old(self).well_formed(),
        ensures
            final(self).well_formed(),
            final(self)@ == file_opened(old(self)@, path@, read_view(read)),
    {
        match read {
            Err(error) => {
                self.file_error = Some(
                    String::from_str("Unable to open EEPROM file: ").concat(error.as_str()),
                );
            },
            Ok(bytes) => {
                if bytes.len() == 0 {
                    self.file_error = Some(String::from_str("The selected EEPROM file is empty."));
                    return;
                }
                self.loaded_eeprom = Some(
                    LoadedEeprom {
                        path: path.to_owned(),
                        bytes,
                        start_address: 0,
                        selected_offset: 0,
                        model: None,
                    },
                );
                self.selected_usb_candidate = None;
                self.selected_usb_model = None;
                self.selected_fixture = None;
                self.file_error = None;
                self.usb_operation_result = None;
                self.pending_usb_operation = None;
                self.show_validation_report = false;
                self.state.navigate_to(Page::Eeprom);
            },
        }
    }

    /// Notes that a search for candidates has begun, or that there is none on
    /// this platform.
    pub fn refresh_usb_candidates(&mut self)
        requires
            old(self).well_formed(),
        ensures
            final(self).well_formed(),
            final(self)@ == (GuiView {
                usb_scan_status: begun_scan(old(self)@.platform),
                ..old(self)@
            }),
    {
        self.usb_scan_status = begin_scan(self.platform);
    }

    fn list_candidates(&self, found: &[UsbPrinterCandidate]) -> (listed: Vec<DescriptorCandidate>)
        requires
            self.well_formed(),
        ensures
            all_listed(candidate_views(listed@), found@, self.state.database@),
    {
        let mut listed: Vec<DescriptorCandidate> = Vec::new();
        while listed.len() < found.len()
            invariant
                self.well_formed(),
                listed@.len() <= found.len(),
                forall|i: int|
                    0 <= i < listed@.len() ==> listed_as(
                        (#[trigger] listed@[i])@,
                        found@[i],
                        i,
                        self.state.database@,
                    ),
            decreases found.len() - listed.len(),
        {
            let index: usize = listed.len();
            let candidate = found[index];
            listed.push(
                DescriptorCandidate {
                    alias: String::from_str("usb-").concat(dec((index + 1) as u64).as_str()),
                    backend: DescriptorCandidateBackend::LibUsb,
                    vendor_id: candidate.vendor_id,
                    product_id: candidate.product_id,
                    bus_number: Some(candidate.bus_number),
                    device_address: Some(candidate.device_address),
                    interface_number: Some(candidate.interface_number),
                    alternate_setting: Some(candidate.alternate_setting),
                    model_hints: self.state.model_hints_for_usb_candidate(
                        candidate.vendor_id,
                        candidate.product_id,
                    ),
                },
            );
        }
        listed
    }

    /// Takes over what a search for candidates has found. A search that failed
    /// leaves the listed candidates as they were. Nothing is taken over where
    /// printers cannot be reached over USB.
    pub fn poll_usb_candidates(&mut self, result: Result<Vec<UsbPrinterCandidate>, String>)
        requires
            old(self).well_formed(),
        ensures
            final(self).well_formed(),
            !reaches_usb(old(self)@.platform) ==> final(self)@ == old(self)@,
            reaches_usb(old(self)@.platform) ==> match result {
                Ok(found) => all_listed(
                    final(self)@.usb_candidates,
                    found@,
                    old(self)@.state.database@,
                ) && final(self)@ == (GuiView {
                    usb_candidates: final(self)@.usb_candidates,
                    selected_usb_candidate: None,
                    selected_usb_model: None,
                    usb_scan_status: ScanView::Ready,
                    ..old(self)@
                }),
                Err(error) => final(self)@ == (GuiView {
                    usb_scan_status: ScanView::Failed(error@),
                    ..old(self)@
                }),
            },
    {
        if !self.platform.has_usb() {
            return;
        }
        match result {
            Ok(found) => {
                self.usb_candidates = self.list_candidates(found.as_slice());
                self.selected_usb_candidate = None;
                self.selected_usb_model = None;
                self.usb_scan_status = UsbScanStatus::Ready;
            },
            Err(error) => {
                self.usb_scan_status = UsbScanStatus::Failed(error);
            },
        }
    }

    pub fn usb_operation_in_progress(&self) -> (running: bool)
        ensures
            running == self@.operation_running,
    {
        self.operation_running
    }

    /// Selects a listed candidate.
    pub fn select_candidate(&mut self, index: usize)
        requires
            old(self).well_formed(),
        ensures
            final(self).well_formed(),
            final(self)@ == candidate_selected(old(self)@, index),
    {
        if index < self.usb_candidates.len() {
            let model: Option<String> = if self.usb_candidates[index].model_hints.len() == 1 {
                Some(self.usb_candidates[index].model_hints[0].clone())
            } else {
                None
            };
            self.selected_usb_candidate = Some(index);
            self.selected_usb_model = model;
            self.loaded_eeprom = None;
            self.selected_fixture = None;
            self.show_validation_report = false;
            self.usb_operation_result = None;
            self.pending_usb_operation = None;
        }
    }

    /// Selects a fixture.
    pub fn select_fixture(&mut self, index: usize)
        requires
            old(self).well_formed(),
        ensures
            final(self).well_formed(),
            final(self)@ == fixture_chosen(old(self)@, index),
    {
        if index < self.state.fixtures.len() {
            self.loaded_eeprom = None;
            self.selected_usb_candidate = None;
            self.selected_usb_model = None;
            self.selected_fixture = Some(index);
            self.state.select_fixture(index);
            self.show_validation_report = false;
            self.usb_operation_result = None;
            self.pending_usb_operation = None;
        }
    }

    /// Chooses the model of the shown image.
    pub fn choose_file_model(&mut self, model: &str)
        requires
            old(self).well_formed(),
        ensures
            final(self).well_formed(),
            final(self)@ == file_model_chosen(old(self)@, model@),
    {
        if self.selected_usb_candidate().is_some() {
            return;
        }
        if let Some(file) = &mut self.loaded_eeprom {
            file.model = Some(model.to_owned());
        }
    }

    /// Chooses the expected model of the selected candidate.
    pub fn choose_expected_model(&mut self, model: &str)
        requires
            old(self).well_formed(),
        ensures
            final(self).well_formed(),
            final(self)@ == (GuiView {
                selected_usb_model: Some(model@),
                usb_operation_result: None,
                pending_usb_operation: None,
                ..old(self)@
            }),
    {
        self.selected_usb_model = Some(model.to_owned());
        self.usb_operation_result = None;
        self.pending_usb_operation = None;
    }

    /// Shows the validation report of the fixture.
    pub fn run_validation(&mut self)
        requires
            old(self).well_formed(),
        ensures
            final(self).well_formed(),
            final(self)@ == (GuiView { show_validation_report: true, ..old(self)@ }),
    {
        self.show_validation_report = true;
    }

    /// Starts an operation on the selected printer, if it may be started.
    pub fn start_selected_usb_operation(&mut self) -> (started: Option<StartedOperation>)
        requires
            old(self).well_formed(),
        ensures
            final(self).well_formed(),
            final(self)@ == operation_started(old(self)@).0,
            match started {
                Some(started) => {
                    &&& operation_started(old(self)@).1
                    &&& chosen_candidate(old(self)@) == Some(started.candidate@)
                    &&& expected_model(old(self)@) == Some(started.expected_model@)
                    &&& started.record_traffic == old(self)@.debug_traffic.capture_enabled
                },
                None => !operation_started(old(self)@).1,
            },
    {
        if !self.platform.has_usb() || self.operation_running {
            return None;
        }
        let scanning: bool = match &self.usb_scan_status {
            UsbScanStatus::Scanning => true,
            _ => false,
        };
        if scanning {
            self.usb_operation_result = Some(
                report_blocked(
                    "Wait for USB candidate enumeration to finish before starting an operation.",
                ),
            );
            return None;
        }
        let candidate = match self.selected_usb_candidate() {
            Some(candidate) => candidate.duplicate(),
            None => return None,
        };
        let model: Option<String> = match self.selected_usb_model() {
            Some(model) => Some(model.to_owned()),
            None => None,
        };
        let expected_model = match model {
            Some(model) => model,
            None => {
                self.usb_operation_result = Some(
                    report_blocked(
                        "Select one expected bundled model for the selected candidate before opening USB.",
                    ),
                );
                return None;
            },
        };
        self.operation_running = true;
        self.usb_operation_result = None;
        let record_traffic: bool = self.debug_traffic.capture_enabled();
        if record_traffic {
            self.debug_traffic.begin_operation();
        }
        Some(StartedOperation { candidate, expected_model, record_traffic })
    }

    /// Takes over the outcome of an operation.
    pub fn poll_usb_operation(&mut self, outcome: SelectedUsbSessionOutcome<UsbOperationSuccess>)
        requires
            old(self).well_formed(),
            outcome.operation matches Ok(UsbOperationSuccess::Dump { image, .. })
                ==> image.bytes@.len() > 0 && image.start_address + image.bytes@.len()
                <= usize::MAX,
        ensures
            final(self).well_formed(),
            final(self)@ == operation_ended(
                old(self)@,
                outcome_view(outcome.operation),
                outcome.cleanup,
                outcome.events@,
            ),
    {
        if !self.platform.has_usb() {
            return;
        }
        let SelectedUsbSessionOutcome { operation, cleanup, events } = outcome;
        self.operation_running = false;
        self.append_recorded_transport_events(events);
        let report = report_operation(&operation, &cleanup);
        self.usb_operation_result = Some(report);
        if let Ok(UsbOperationSuccess::Dump { image, output_file }) = operation {
            self.loaded_eeprom = Some(
                LoadedEeprom {
                    path: output_file,
                    start_address: image.start_address as usize,
                    bytes: image.bytes,
                    selected_offset: 0,
                    model: Some(image.model),
                },
            );
            self.selected_fixture = None;
            self.file_error = None;
            self.show_validation_report = false;
            self.state.navigate_to(Page::Eeprom);
        }
    }
}

/// An operation starts only while no other one runs, after the search for
/// candidates, and for a listed candidate with a known expected model.
pub proof fn operations_start_only_for_a_known_model(gui: GuiView)
    requires
        operation_started(gui).1,
    ensures
        reaches_usb(gui.platform),
        !gui.operation_running,
        gui.usb_scan_status != ScanView::Scanning,
        chosen_candidate(gui) is Some,
        expected_model(gui) matches Some(model) && gui.state.database@.contains_key(model),
        operation_started(gui).0.operation_running,
{
}

/// Selecting a candidate starts nothing and leaves the recorded traffic alone;
/// an operation that waited for its confirmation is dropped.
pub proof fn selecting_a_candidate_starts_nothing(gui: GuiView, index: usize)
    requires
        index < gui.usb_candidates.len(),
    ensures
        candidate_selected(gui, index).operation_running == gui.operation_running,
        candidate_selected(gui, index).debug_traffic == gui.debug_traffic,
        candidate_selected(gui, index).pending_usb_operation is None,
        chosen_candidate(candidate_selected(gui, index)) == Some(gui.usb_candidates[index as int]),
{
}

/// The place of an address among fields is the first field that begins there, and behind
/// all of them where none does.
pub proof fn fields_are_found_by_their_address(
    fields: Seq<FileFieldView>,
    address: nat,
    place: int,
)
    requires
        0 <= place <= fields.len(),
        forall|i: int| 0 <= i < place ==> (#[trigger] fields[i]).address != address,
        place < fields.len() ==> fields[place].address == address,
    ensures
        field_place(fields, address) == place,
    decreases fields.len(),
{
    if fields.len() > 0 {
        let shorter = fields.drop_last();
        if place < shorter.len() {
            fields_are_found_by_their_address(shorter, address, place);
        } else {
            fields_are_found_by_their_address(shorter, address, shorter.len() as int);
            if place == fields.len() {
                assert(fields[fields.len() - 1].address != address);
            }
        }
    }
}

/// The fields of a model with read-only fields are those fields, one for one.
pub proof fn read_only_fields_are_shown(settings: EpsonSpec, index: int)
    requires
        0 <= index < settings.read_only_fields@.len(),
    ensures
        model_fields(settings@).len() == settings.read_only_fields@.len(),
        model_fields(settings@)[index].address == settings.read_only_fields@[index].address,
        model_fields(settings@)[index].end_address == settings.read_only_fields@[index].end_address,
        model_fields(settings@)[index].label == settings.read_only_fields@[index].label@,
        model_fields(settings@)[index].encoding == settings.read_only_fields@[index].encoding,
        model_fields(settings@)[index].confidence == Some(
            settings.read_only_fields@[index].confidence,
        ),
        model_fields(settings@)[index].sensitive == settings.read_only_fields@[index].sensitive,
{
    assert(settings@.read_only_fields[index] == settings.read_only_fields@[index]@);
}

/// Without read-only fields each address of an operation is a field of one byte under the
/// description of the operation, one operation after another.
pub proof fn operations_are_shown_address_by_address(
    operations: Seq<OperationView>,
    operation: OperationView,
    index: int,
)
    requires
        0 <= index < operation.addresses.len(),
    ensures
        ({
            let before = operation_fields(operations);
            let after = operation_fields(operations.push(operation));
            &&& operation_fields(seq![]).len() == 0
            &&& after.len() == before.len() + operation.addresses.len()
            &&& after.take(before.len() as int) == before
            &&& after[before.len() + index].address == operation.addresses[index]
            &&& after[before.len() + index].end_address == operation.addresses[index]
            &&& after[before.len() + index].label == operation.description
            &&& !after[before.len() + index].sensitive
        }),
{
    assert(operations.push(operation).drop_last() =~= operations);
    assert(operation_fields(operations.push(operation)).take(
        operation_fields(operations).len() as int,
    ) =~= operation_fields(operations));
}

/// Selecting an address of the shown image selects the byte there, and an address that it
/// does not hold changes nothing.
pub proof fn selected_addresses_are_shown(gui: GuiView, file: LoadedView, address: usize)
    requires
        gui.loaded_eeprom == Some(file),
    ensures
        file.start_address <= address < file.start_address + file.bytes.len() ==> shown_address(
            address_selected(gui, address),
        ) == address && shown_value(address_selected(gui, address)) == file.bytes[address
            - file.start_address] && shown_bytes(address_selected(gui, address)) == file.bytes,
        !(file.start_address <= address < file.start_address + file.bytes.len())
            ==> address_selected(gui, address) == gui,
{
}

/// A file that could be read and is not empty is shown from its first byte on, under
/// address zero and without a model; anything else leaves what is shown.
pub proof fn opened_files_are_shown(gui: GuiView, path: Seq<char>, bytes: Seq<u8>)
    ensures
        bytes.len() > 0 ==> {
            let after = file_opened(gui, path, Ok(bytes));
            &&& shown_bytes(after) == bytes
            &&& shown_address(after) == 0
            &&& shown_value(after) == bytes[0]
            &&& source_text(after) == path
            &&& shown_fields(after).len() == 0
            &&& after.file_error is None
            &&& after.pending_usb_operation is None
        },
        bytes.len() == 0 ==> file_opened(gui, path, Ok(bytes)).loaded_eeprom == gui.loaded_eeprom
            && file_opened(gui, path, Ok(bytes)).file_error is Some,
{
}

/// A candidate that is selected is the source of what is shown. Its model is expected
/// only where it is the single hint, and known.
pub proof fn selected_candidates_are_shown(gui: GuiView, index: usize)
    requires
        index < gui.usb_candidates.len(),
    ensures
        ({
            let after = candidate_selected(gui, index);
            let candidate = gui.usb_candidates[index as int];
            &&& chosen_candidate(after) == Some(candidate)
            &&& source_text(after) == candidate.alias
            &&& after.loaded_eeprom is None
            &&& candidate.model_hints.len() == 1 && gui.state.database@.contains_key(
                candidate.model_hints[0],
            ) ==> expected_model(after) == Some(candidate.model_hints[0])
            &&& candidate.model_hints.len() != 1 ==> expected_model(after) is None
        }),
{
}

/// An image that an operation has saved is shown from its own first address on, for its
/// own model.
pub proof fn saved_images_are_shown(
    gui: GuiView,
    image: ImageView,
    output_file: Seq<char>,
    cleanup: UsbSessionCleanup,
    events: Seq<TransportEvent>,
)
    requires
        reaches_usb(gui.platform),
        image.bytes.len() > 0,
    ensures
        ({
            let after = operation_ended(
                gui,
                Ok(SuccessView::Dump { image, output_file }),
                cleanup,
                events,
            );
            &&& shown_bytes(after) == image.bytes
            &&& shown_address(after) == image.start_address
            &&& shown_value(after) == image.bytes[0]
            &&& !after.operation_running
            &&& gui.state.database@.contains_key(image.model) ==> shown_fields(after)
                == model_fields(gui.state.database@[image.model])
            &&& after.debug_traffic == all_captured(gui.debug_traffic, events)
        }),
{
}

/// Found printers are listed in their order and counted from one, each with what was found
/// of it.
pub proof fn found_printers_are_listed(
    listed: Seq<CandidateView>,
    found: Seq<UsbPrinterCandidate>,
    models: Map<Seq<char>, SpecView>,
    index: int,
)
    requires
        all_listed(listed, found, models),
        0 <= index < found.len(),
    ensures
        listed.len() == found.len(),
        listed[index].alias == "usb-"@ + dec_text((index + 1) as nat),
        listed[index].vendor_id == found[index].vendor_id,
        listed[index].product_id == found[index].product_id,
        listed[index].bus_number == Some(found[index].bus_number),
        listed[index].device_address == Some(found[index].device_address),
        listed[index].interface_number == Some(found[index].interface_number),
        listed[index].alternate_setting == Some(found[index].alternate_setting),
        hints_for(
            listed[index].model_hints,
            models,
            found[index].vendor_id,
            found[index].product_id,
        ),
{
    assert(listed_as(listed[index], found[index], index, models));
}

/// A model that is chosen for the shown file gives it the fields of that model; an image that
/// came from a printer keeps its own.
pub proof fn chosen_models_give_their_fields(gui: GuiView, file: LoadedView, model: Seq<char>)
    requires
        gui.loaded_eeprom == Some(file),
    ensures
        chosen_candidate(gui) is None && gui.state.database@.contains_key(model) ==> shown_fields(
            file_model_chosen(gui, model),
        ) == model_fields(gui.state.database@[model]),
        chosen_candidate(gui) is Some ==> file_model_chosen(gui, model) == gui,
        shown_bytes(file_model_chosen(gui, model)) == file.bytes,
        shown_address(file_model_chosen(gui, model)) == shown_address(gui),
{
}

/// A row of a fixture is found by its address: the first that has it.
pub proof fn rows_are_found_by_their_address(gui: GuiView, address: usize, place: int)
    requires
        gui.loaded_eeprom is None,
        0 <= place < chosen_fixture(gui).eeprom_rows@.len(),
        place <= usize::MAX,
        chosen_fixture(gui).eeprom_rows@[place].address == address,
        forall|i: int|
            0 <= i < place ==> (#[trigger] chosen_fixture(gui).eeprom_rows@[i]).address != address,
    ensures
        shown_address(address_selected(gui, address)) == address,
        shown_value(address_selected(gui, address)) == chosen_fixture(
            gui,
        ).eeprom_rows@[place].value,
{
    lemma_row_place(chosen_fixture(gui).eeprom_rows@, address, place);
}

} // verus!
