//! Guarded state of the graphical interface.
//!
//! Fixtures never open a transport. Connected USB candidates are descriptor-only:
//! they do not identify a printer or permit device, EEPROM, or maintenance access
//! until an explicit selected-printer operation is confirmed.
use crate::builtin::builtin_models;
use crate::database::{valid_models, ModelDatabase};
use crate::epson::{EpsonSpec, SpecError, SpecView};
use crate::identity::{field_of_identity, identity_of, PrinterIdentity};
use crate::report::{resolved_model_of, string_text};
use crate::text_map::{ascending, text_less, texts};
use vstd::prelude::*;

verus! {

/// Launch mode controlling whether bundled fixtures can be selected.
///
/// Real mode is the default and contains no implicit printer source.
#[derive(Clone, Copy, Debug, PartialEq, Eq, Structural)]
pub enum SourceMode {
    Real,
    Fixtures,
}

impl Default for SourceMode {
    fn default() -> (mode: Self)
        ensures
            mode == SourceMode::Real,
    {
        SourceMode::Real
    }
}

impl SourceMode {
    pub fn fixtures_enabled(self) -> (enabled: bool)
        ensures
            enabled == (self == SourceMode::Fixtures),
    {
        match self {
            SourceMode::Real => false,
            SourceMode::Fixtures => true,
        }
    }
}

/// The mode that arguments ask for: fixtures need an explicit flag, and
/// unknown arguments are ignored.
pub fn source_mode_from_args(arguments: &[String]) -> (mode: SourceMode)
    ensures
        mode == if texts(arguments@).contains("--fixtures"@) {
            SourceMode::Fixtures
        } else {
            SourceMode::Real
        },
{
    let mut index: usize = 0;
    while index < arguments.len()
        invariant
            index <= arguments@.len(),
            forall|i: int| 0 <= i < index ==> (#[trigger] arguments@[i])@ != "--fixtures"@,
        decreases arguments.len() - index,
    {
        if crate::text::same_text(arguments[index].as_str(), "--fixtures") {
            proof {
                assert(texts(arguments@)[index as int] == "--fixtures"@);
            }
            return SourceMode::Fixtures;
        }
        index = index + 1;
    }
    SourceMode::Real
}

#[derive(Clone, Copy, Debug, PartialEq, Eq, Structural)]
pub enum Page {
    Status,
    Eeprom,
    Tools,
}

#[derive(Clone, Copy, Debug, PartialEq, Eq, Structural)]
pub enum ValidationStatus {
    Success,
    Blocked,
    Failure,
}

impl ValidationStatus {
    pub fn label(self) -> (label: &'static str)
        ensures
            label@ == match self {
                ValidationStatus::Success => "Success"@,
                ValidationStatus::Blocked => "Blocked"@,
                ValidationStatus::Failure => "Failure"@,
            },
    {
        match self {
            ValidationStatus::Success => "Success",
            ValidationStatus::Blocked => "Blocked",
            ValidationStatus::Failure => "Failure",
        }
    }
}

#[derive(Clone, Copy, Debug, PartialEq, Eq)]
pub struct ValidationReportItem {
    pub status: ValidationStatus,
    pub check: &'static str,
    pub detail: &'static str,
}

#[derive(Clone, Copy, Debug, PartialEq, Eq)]
pub struct EepromRow {
    pub address: u16,
    pub value: u8,
    pub label: &'static str,
}

/// A deterministic stand-in for a printer.
#[derive(Clone, Debug, PartialEq, Eq)]
pub struct FixtureDevice {
    pub label: &'static str,
    pub identity: &'static str,
    pub validation_report: Vec<ValidationReportItem>,
    pub eeprom_rows: Vec<EepromRow>,
    pub eeprom_bytes: Vec<u8>,
}

/// The number of bytes in the EEPROM of a fixture.
pub const FIXTURE_EEPROM_LENGTH: usize = 256;

/// The bytes of a fixture's EEPROM: the values of its rows, and zeros elsewhere.
pub open spec fn fixture_image(rows: Seq<EepromRow>) -> Seq<u8>
    decreases rows.len(),
{
    if rows.len() == 0 {
        Seq::new(FIXTURE_EEPROM_LENGTH as nat, |i: int| 0u8)
    } else {
        fixture_image(rows.drop_last()).update(rows.last().address as int, rows.last().value)
    }
}

proof fn lemma_fixture_image(rows: Seq<EepromRow>)
    requires
        forall|i: int|
            0 <= i < rows.len() ==> (#[trigger] rows[i]).address < FIXTURE_EEPROM_LENGTH,
    ensures
        fixture_image(rows).len() == FIXTURE_EEPROM_LENGTH,
    decreases rows.len(),
{
    if rows.len() > 0 {
        lemma_fixture_image(rows.drop_last());
    }
}

/// Makes the bytes of a fixture's EEPROM.
pub fn fixture_eeprom(rows: &[EepromRow]) -> (bytes: Vec<u8>)
    requires
        forall|i: int|
            0 <= i < rows@.len() ==> (#[trigger] rows@[i]).address < FIXTURE_EEPROM_LENGTH,
    ensures
        bytes@ == fixture_image(rows@),
{
    let mut bytes: Vec<u8> = Vec::new();
    while bytes.len() < FIXTURE_EEPROM_LENGTH
        invariant
            bytes@.len() <= FIXTURE_EEPROM_LENGTH,
            forall|i: int| 0 <= i < bytes@.len() ==> #[trigger] bytes@[i] == 0,
        decreases FIXTURE_EEPROM_LENGTH - bytes.len(),
    {
        bytes.push(0);
    }
    proof {
        assert(rows@.take(0) =~= seq![]);
        assert(bytes@ =~= fixture_image(rows@.take(0)));
    }
    let mut index: usize = 0;
    while index < rows.len()
        invariant
            index <= rows@.len(),
            bytes@.len() == FIXTURE_EEPROM_LENGTH,
            forall|i: int|
                0 <= i < rows@.len() ==> (#[trigger] rows@[i]).address < FIXTURE_EEPROM_LENGTH,
            bytes@ == fixture_image(rows@.take(index as int)),
        decreases rows.len() - index,
    {
        let row = &rows[index];
        bytes.set(row.address as usize, row.value);
        proof {
            assert(rows@.take(index + 1).drop_last() =~= rows@.take(index as int));
        }
        index = index + 1;
    }
    proof {
        assert(rows@.take(index as int) =~= rows@);
    }
    bytes
}

/// Every row with an address of its own is found in the image of a fixture.
pub proof fn fixture_images_hold_their_rows(rows: Seq<EepromRow>, index: int)
    requires
        0 <= index < rows.len(),
        forall|i: int|
            0 <= i < rows.len() ==> (#[trigger] rows[i]).address < FIXTURE_EEPROM_LENGTH,
        forall|i: int|
            index < i < rows.len() ==> (#[trigger] rows[i]).address != rows[index].address,
    ensures
        fixture_image(rows)[rows[index].address as int] == rows[index].value,
    decreases rows.len(),
{
    lemma_fixture_image(rows.drop_last());
    if index < rows.len() - 1 {
        assert(rows.drop_last()[index] == rows[index]);
        fixture_images_hold_their_rows(rows.drop_last(), index);
        assert(rows[rows.len() - 1].address != rows[index].address);
    }
}

/// The report of the XP-352 fixture.
pub open spec fn xp_352_report() -> Seq<ValidationReportItem> {
    seq![
        ValidationReportItem {
            status: ValidationStatus::Success,
            check: "Fixture safety boundary",
            detail: "Fixture mode is active; no physical transport is linked.",
        },
        ValidationReportItem {
            status: ValidationStatus::Success,
            check: "Identity parsing",
            detail: "The IEEE 1284 fixture identity parsed successfully.",
        },
        ValidationReportItem {
            status: ValidationStatus::Blocked,
            check: "EEPROM read",
            detail: "Blocked intentionally: this GUI has no transport dependency.",
        },
        ValidationReportItem {
            status: ValidationStatus::Failure,
            check: "Fixture protocol replay",
            detail: "Simulated malformed reply retained to demonstrate a visible failure state.",
        },
    ]
}

/// The rows of the XP-352 fixture.
pub open spec fn xp_352_rows() -> Seq<EepromRow> {
    seq![
        EepromRow { address: 0x0006, value: 0x18, label: "Fixture counter byte A" },
        EepromRow { address: 0x0007, value: 0x04, label: "Fixture counter byte B" },
        EepromRow { address: 0x000c, value: 0x57, label: "Fixture maintenance byte" },
    ]
}

/// The report of the C90 fixture.
pub open spec fn c90_report() -> Seq<ValidationReportItem> {
    seq![
        ValidationReportItem {
            status: ValidationStatus::Success,
            check: "Fixture safety boundary",
            detail: "Fixture mode is active; no physical transport is linked.",
        },
        ValidationReportItem {
            status: ValidationStatus::Success,
            check: "Model resolution",
            detail: "The bundled model database resolved the C90 fixture.",
        },
        ValidationReportItem {
            status: ValidationStatus::Blocked,
            check: "Waste-counter reset",
            detail: "Blocked intentionally: reset operations are not present in this GUI.",
        },
        ValidationReportItem {
            status: ValidationStatus::Failure,
            check: "Fixture reply validation",
            detail: "Simulated checksum mismatch retained to demonstrate a visible failure state.",
        },
    ]
}

/// The rows of the C90 fixture.
pub open spec fn c90_rows() -> Seq<EepromRow> {
    seq![
        EepromRow { address: 0x0006, value: 0x00, label: "Fixture counter byte A" },
        EepromRow { address: 0x0007, value: 0x20, label: "Fixture counter byte B" },
        EepromRow { address: 0x0035, value: 0x57, label: "Fixture maintenance byte" },
    ]
}

/// A fixture has these contents.
pub open spec fn fixture_is(
    fixture: FixtureDevice,
    label: &'static str,
    identity: &'static str,
    report: Seq<ValidationReportItem>,
    rows: Seq<EepromRow>,
) -> bool {
    &&& fixture.label == label
    &&& fixture.identity == identity
    &&& fixture.validation_report@ == report
    &&& fixture.eeprom_rows@ == rows
    &&& fixture.eeprom_bytes@ == fixture_image(rows)
}

/// The bundled fixtures.
pub open spec fn bundled(fixtures: Seq<FixtureDevice>) -> bool {
    &&& fixtures.len() == 2
    &&& fixture_is(
        fixtures[0],
        "XP-352 fixture",
        "MFG:EPSON;MDL:XP-352 Series;CMD:ESCPL2,BDC;SN:FIXTURE-0001;",
        xp_352_report(),
        xp_352_rows(),
    )
    &&& fixture_is(
        fixtures[1],
        "C90 fixture",
        "MFG:EPSON;MDL:C90;CMD:ESCPL2;SN:FIXTURE-0002;",
        c90_report(),
        c90_rows(),
    )
}

fn xp_352_fixture() -> (fixture: FixtureDevice)
    ensures
        fixture_is(
            fixture,
            "XP-352 fixture",
            "MFG:EPSON;MDL:XP-352 Series;CMD:ESCPL2,BDC;SN:FIXTURE-0001;",
            xp_352_report(),
            xp_352_rows(),
        ),
{
    let validation_report = vec![
        ValidationReportItem {
            status: ValidationStatus::Success,
            check: "Fixture safety boundary",
            detail: "Fixture mode is active; no physical transport is linked.",
        },
        ValidationReportItem {
            status: ValidationStatus::Success,
            check: "Identity parsing",
            detail: "The IEEE 1284 fixture identity parsed successfully.",
        },
        ValidationReportItem {
            status: ValidationStatus::Blocked,
            check: "EEPROM read",
            detail: "Blocked intentionally: this GUI has no transport dependency.",
        },
        ValidationReportItem {
            status: ValidationStatus::Failure,
            check: "Fixture protocol replay",
            detail: "Simulated malformed reply retained to demonstrate a visible failure state.",
        },
    ];
    let eeprom_rows = vec![
        EepromRow { address: 0x0006, value: 0x18, label: "Fixture counter byte A" },
        EepromRow { address: 0x0007, value: 0x04, label: "Fixture counter byte B" },
        EepromRow { address: 0x000c, value: 0x57, label: "Fixture maintenance byte" },
    ];
    proof {
        assert(validation_report@ =~= xp_352_report());
        assert(eeprom_rows@ =~= xp_352_rows());
    }
    let eeprom_bytes = fixture_eeprom(eeprom_rows.as_slice());
    FixtureDevice {
        label: "XP-352 fixture",
        identity: "MFG:EPSON;MDL:XP-352 Series;CMD:ESCPL2,BDC;SN:FIXTURE-0001;",
        validation_report,
        eeprom_rows,
        eeprom_bytes,
    }
}

fn c90_fixture() -> (fixture: FixtureDevice)
    ensures
        fixture_is(
            fixture,
            "C90 fixture",
            "MFG:EPSON;MDL:C90;CMD:ESCPL2;SN:FIXTURE-0002;",
            c90_report(),
            c90_rows(),
        ),
{
    let validation_report = vec![
        ValidationReportItem {
            status: ValidationStatus::Success,
            check: "Fixture safety boundary",
            detail: "Fixture mode is active; no physical transport is linked.",
        },
        ValidationReportItem {
            status: ValidationStatus::Success,
            check: "Model resolution",
            detail: "The bundled model database resolved the C90 fixture.",
        },
        ValidationReportItem {
            status: ValidationStatus::Blocked,
            check: "Waste-counter reset",
            detail: "Blocked intentionally: reset operations are not present in this GUI.",
        },
        ValidationReportItem {
            status: ValidationStatus::Failure,
            check: "Fixture reply validation",
            detail: "Simulated checksum mismatch retained to demonstrate a visible failure state.",
        },
    ];
    let eeprom_rows = vec![
        EepromRow { address: 0x0006, value: 0x00, label: "Fixture counter byte A" },
        EepromRow { address: 0x0007, value: 0x20, label: "Fixture counter byte B" },
        EepromRow { address: 0x0035, value: 0x57, label: "Fixture maintenance byte" },
    ];
    proof {
        assert(validation_report@ =~= c90_report());
        assert(eeprom_rows@ =~= c90_rows());
    }
    let eeprom_bytes = fixture_eeprom(eeprom_rows.as_slice());
    FixtureDevice {
        label: "C90 fixture",
        identity: "MFG:EPSON;MDL:C90;CMD:ESCPL2;SN:FIXTURE-0002;",
        validation_report,
        eeprom_rows,
        eeprom_bytes,
    }
}

/// The bundled fixtures.
pub fn fixture_devices() -> (fixtures: Vec<FixtureDevice>)
    ensures
        bundled(fixtures@),
{
    vec![xp_352_fixture(), c90_fixture()]
}

/// How a USB candidate is reached.
#[derive(Clone, Copy, Debug, PartialEq, Eq, Structural)]
pub enum DescriptorCandidateBackend {
    LibUsb,
    /// The stock driver, with what it may do.
    WindowsNative { persistent_mutation: bool, experimental_mutation: bool },
}

impl DescriptorCandidateBackend {
    pub fn label(&self) -> (label: &'static str)
        ensures
            label@ == match *self {
                DescriptorCandidateBackend::LibUsb => "libusb"@,
                DescriptorCandidateBackend::WindowsNative {
                    ..
                } => "Windows USBPRINT (experimental mutation)"@,
            },
    {
        match self {
            DescriptorCandidateBackend::LibUsb => "libusb",
            DescriptorCandidateBackend::WindowsNative {
                ..
            } => "Windows USBPRINT (experimental mutation)",
        }
    }

    pub fn permits_persistent_mutation(&self) -> (permitted: bool)
        ensures
            permitted == match *self {
                DescriptorCandidateBackend::LibUsb => true,
                DescriptorCandidateBackend::WindowsNative {
                    persistent_mutation,
                    ..
                } => persistent_mutation,
            },
    {
        match self {
            DescriptorCandidateBackend::LibUsb => true,
            DescriptorCandidateBackend::WindowsNative {
                persistent_mutation,
                ..
            } => *persistent_mutation,
        }
    }

    pub fn experimental_mutation(&self) -> (experimental: bool)
        ensures
            experimental == match *self {
                DescriptorCandidateBackend::LibUsb => false,
                DescriptorCandidateBackend::WindowsNative {
                    experimental_mutation,
                    ..
                } => experimental_mutation,
            },
    {
        match self {
            DescriptorCandidateBackend::LibUsb => false,
            DescriptorCandidateBackend::WindowsNative {
                experimental_mutation,
                ..
            } => *experimental_mutation,
        }
    }
}

/// Descriptor-only USB printer information shown for the current session.
///
/// This intentionally omits USB strings and public device handles. The alias is
/// session-local and model hints are only exact VID/PID database matches.
#[derive(Clone, Debug, PartialEq, Eq)]
pub struct DescriptorCandidate {
    pub alias: String,
    pub backend: DescriptorCandidateBackend,
    pub vendor_id: u16,
    pub product_id: u16,
    pub bus_number: Option<u8>,
    pub device_address: Option<u8>,
    pub interface_number: Option<u8>,
    pub alternate_setting: Option<u8>,
    pub model_hints: Vec<String>,
}

/// The contents of a candidate.
pub struct CandidateView {
    pub alias: Seq<char>,
    pub backend: DescriptorCandidateBackend,
    pub vendor_id: u16,
    pub product_id: u16,
    pub bus_number: Option<u8>,
    pub device_address: Option<u8>,
    pub interface_number: Option<u8>,
    pub alternate_setting: Option<u8>,
    pub model_hints: Seq<Seq<char>>,
}

impl View for DescriptorCandidate {
    type V = CandidateView;

    open spec fn view(&self) -> CandidateView {
        CandidateView {
            alias: self.alias@,
            backend: self.backend,
            vendor_id: self.vendor_id,
            product_id: self.product_id,
            bus_number: self.bus_number,
            device_address: self.device_address,
            interface_number: self.interface_number,
            alternate_setting: self.alternate_setting,
            model_hints: texts(self.model_hints@),
        }
    }
}

impl DescriptorCandidate {
    pub fn permits_persistent_mutation(&self) -> (permitted: bool)
        ensures
            permitted == match self.backend {
                DescriptorCandidateBackend::LibUsb => true,
                DescriptorCandidateBackend::WindowsNative {
                    persistent_mutation,
                    ..
                } => persistent_mutation,
            },
    {
        self.backend.permits_persistent_mutation()
    }

    pub fn experimental_mutation(&self) -> (experimental: bool)
        ensures
            experimental == match self.backend {
                DescriptorCandidateBackend::LibUsb => false,
                DescriptorCandidateBackend::WindowsNative {
                    experimental_mutation,
                    ..
                } => experimental_mutation,
            },
    {
        self.backend.experimental_mutation()
    }
}

/// The settings have exactly these identifiers.
pub open spec fn same_identifiers(settings: SpecView, vendor_id: u16, product_id: u16) -> bool {
    settings.vendor_id == vendor_id && settings.product_id == Some(product_id)
}

/// The names are those of the models with exactly these identifiers, in
/// ascending order.
pub open spec fn hints_for(
    names: Seq<Seq<char>>,
    database: Map<Seq<char>, SpecView>,
    vendor_id: u16,
    product_id: u16,
) -> bool {
    &&& ascending(names)
    &&& forall|name: Seq<char>| #[trigger]
        names.contains(name) <==> (database.contains_key(name) && same_identifiers(
            database[name],
            vendor_id,
            product_id,
        ))
}

/// Lists the models with exactly these identifiers.
///
/// A match is a display hint only; USB descriptors do not confirm printer
/// identity.
pub fn model_hints_for_usb_candidate(
    database: &ModelDatabase,
    vendor_id: u16,
    product_id: u16,
) -> (hints: Vec<String>)
    requires
        database.well_formed(),
    ensures
        hints_for(texts(hints@), database@, vendor_id, product_id),
{
    let names = database.models();
    let ghost all = texts(names@);
    let mut hints: Vec<String> = Vec::new();
    let mut index: usize = 0;
    let ghost mut places: Seq<int> = seq![];
    while index < names.len()
        invariant
            database.well_formed(),
            index <= names@.len(),
            all == texts(names@),
            ascending(all),
            forall|name: Seq<char>| #[trigger] all.contains(name) <==> database@.contains_key(name),
            places.len() == hints@.len(),
            forall|i: int|
                0 <= i < places.len() ==> 0 <= #[trigger] places[i] < index && hints@[i]@
                    == all[places[i]],
            forall|i: int, j: int|
                0 <= i < j < places.len() ==> #[trigger] places[i] < #[trigger] places[j],
            forall|i: int|
                0 <= i < places.len() ==> same_identifiers(
                    database@[all[#[trigger] places[i]]],
                    vendor_id,
                    product_id,
                ),
            forall|k: int|
                0 <= k < index && same_identifiers(
                    database@[#[trigger] all[k]],
                    vendor_id,
                    product_id,
                ) ==> texts(hints@).contains(all[k]),
        decreases names.len() - index,
    {
        let ghost before = texts(hints@);
        proof {
            assert(all[index as int] == names@[index as int]@);
            assert(all.contains(all[index as int]));
        }
        if let Some(settings) = database.get(names[index].as_str()) {
            if settings.vendor_id == vendor_id && settings.product_id == Some(product_id) {
                hints.push(names[index].clone());
                proof {
                    places = places.push(index as int);
                    assert(texts(hints@) =~= before.push(all[index as int]));
                    assert(texts(hints@)[before.len() as int] == all[index as int]);
                }
            }
        }
        proof {
            assert forall|k: int|
                0 <= k < index + 1 && same_identifiers(
                    database@[#[trigger] all[k]],
                    vendor_id,
                    product_id,
                ) implies texts(hints@).contains(all[k]) by {
                if k < index {
                    let i = choose|i: int| 0 <= i < before.len() && before[i] == all[k];
                    assert(texts(hints@)[i] == all[k]);
                }
            }
        }
        index = index + 1;
    }
    proof {
        let shown = texts(hints@);
        assert forall|i: int, j: int| 0 <= i < j < shown.len() implies crate::text_map::text_less(
            #[trigger] shown[i],
            #[trigger] shown[j],
        ) by {
            assert(places[i] < places[j]);
            assert(shown[i] == all[places[i]]);
            assert(shown[j] == all[places[j]]);
        }
        assert forall|name: Seq<char>| #[trigger]
            shown.contains(name) <==> (database@.contains_key(name) && same_identifiers(
                database@[name],
                vendor_id,
                product_id,
            )) by {
            if shown.contains(name) {
                let i = choose|i: int| 0 <= i < shown.len() && shown[i] == name;
                assert(all[places[i]] == name);
                assert(all.contains(name));
            }
            if database@.contains_key(name) {
                assert(all.contains(name));
                let k = choose|k: int| 0 <= k < all.len() && all[k] == name;
                assert(all[k] == name);
            }
        }
    }
    hints
}

/// What an identity says, and the model that it resolves to.
#[derive(Clone, Debug, PartialEq, Eq)]
pub struct IdentityResolution {
    pub manufacturer: Option<String>,
    pub advertised_model: Option<String>,
    pub resolved_model: Option<String>,
}

/// The selections on the pages.
#[derive(Debug)]
pub struct GuiState {
    pub page: Page,
    pub selected_fixture: usize,
    pub selected_eeprom_row: usize,
    pub database: ModelDatabase,
    pub fixtures: Vec<FixtureDevice>,
}

impl GuiState {
    /// A fixture and a row of it are selected.
    pub open spec fn well_formed(&self) -> bool {
        &&& self.database.well_formed()
        &&& valid_models(self.database@)
        &&& bundled(self.fixtures@)
        &&& self.selected_fixture < self.fixtures@.len()
        &&& self.selected_eeprom_row < self.fixtures@[self.selected_fixture
            as int].eeprom_rows@.len()
    }

    pub fn new() -> (state: Result<Self, SpecError>)
        ensures
            state matches Ok(state) && state.well_formed() && state.page == Page::Status
                && state.selected_fixture == 0 && state.selected_eeprom_row == 0 && state.database@
                == builtin_models(),
    {
        match ModelDatabase::builtin() {
            Err(error) => Err(error),
            Ok(database) => Ok(
                GuiState {
                    page: Page::Status,
                    selected_fixture: 0,
                    selected_eeprom_row: 0,
                    database,
                    fixtures: fixture_devices(),
                },
            ),
        }
    }

    pub fn page(&self) -> (page: Page)
        ensures
            page == self.page,
    {
        self.page
    }

    pub fn selected_fixture_index(&self) -> (index: usize)
        ensures
            index == self.selected_fixture,
    {
        self.selected_fixture
    }

    pub fn selected_fixture(&self) -> (fixture: &FixtureDevice)
        requires
            self.well_formed(),
        ensures
            *fixture == self.fixtures@[self.selected_fixture as int],
    {
        &self.fixtures[self.selected_fixture]
    }

    /// Selects a fixture and its first row; an index beyond them is ignored.
    pub fn select_fixture(&mut self, index: usize)
        requires
            old(self).well_formed(),
        ensures
            final(self).well_formed(),
            *final(self) == (GuiState {
                selected_fixture: if index < old(self).fixtures@.len() {
                    index
                } else {
                    old(self).selected_fixture
                },
                selected_eeprom_row: if index < old(self).fixtures@.len() {
                    0
                } else {
                    old(self).selected_eeprom_row
                },
                ..*old(self)
            }),
    {
        if index < self.fixtures.len() {
            self.selected_fixture = index;
            self.selected_eeprom_row = 0;
        }
    }

    pub fn selected_eeprom_row_index(&self) -> (index: usize)
        ensures
            index == self.selected_eeprom_row,
    {
        self.selected_eeprom_row
    }

    pub fn selected_eeprom_row(&self) -> (row: &EepromRow)
        requires
            self.well_formed(),
        ensures
            *row == self.fixtures@[self.selected_fixture as int].eeprom_rows@[self.selected_eeprom_row as int],
    {
        &self.fixtures[self.selected_fixture].eeprom_rows[self.selected_eeprom_row]
    }

    /// Selects a row of the fixture; an index beyond them is ignored.
    pub fn select_eeprom_row(&mut self, index: usize)
        requires
            old(self).well_formed(),
        ensures
            final(self).well_formed(),
            *final(self) == (GuiState {
                selected_eeprom_row: if index < old(self).fixtures@[old(self).selected_fixture
                    as int].eeprom_rows@.len() {
                    index
                } else {
                    old(self).selected_eeprom_row
                },
                ..*old(self)
            }),
    {
        if index < self.fixtures[self.selected_fixture].eeprom_rows.len() {
            self.selected_eeprom_row = index;
        }
    }

    pub fn navigate_to(&mut self, page: Page)
        ensures
            *final(self) == (GuiState { page, ..*old(self) }),
    {
        self.page = page;
    }

    /// Resolves the identity of the selected fixture.
    pub fn identity_resolution(&self) -> (resolution: IdentityResolution)
        requires
            self.well_formed(),
        ensures
            ({
                let identity = identity_of(
                    self.fixtures@[self.selected_fixture as int].identity@,
                );
                match identity {
                    Ok(identity) => {
                        &&& string_text(resolution.manufacturer) == field_of_identity(
                            identity,
                            "MFG"@,
                        )
                        &&& string_text(resolution.advertised_model) == field_of_identity(
                            identity,
                            "MDL"@,
                        )
                        &&& string_text(resolution.resolved_model) == resolved_model_of(
                            identity,
                            self.database@,
                        )
                    },
                    Err(_) => {
                        &&& resolution.manufacturer is None
                        &&& resolution.advertised_model is None
                        &&& resolution.resolved_model is None
                    },
                }
            }),
    {
        match PrinterIdentity::parse(self.selected_fixture().identity) {
            Err(_) => IdentityResolution {
                manufacturer: None,
                advertised_model: None,
                resolved_model: None,
            },
            Ok(identity) => {
                let manufacturer: Option<String> = match identity.manufacturer() {
                    Some(name) => Some(name.clone()),
                    None => None,
                };
                let advertised_model: Option<String> = match identity.model() {
                    Some(name) => Some(name.clone()),
                    None => None,
                };
                let resolved_model: Option<String> = match self.database.resolve_identity(
                    &identity,
                ) {
                    Some(settings) => Some(settings.model.clone()),
                    None => None,
                };
                IdentityResolution { manufacturer, advertised_model, resolved_model }
            },
        }
    }

    /// The names of all models, in ascending order.
    pub fn model_names(&self) -> (names: Vec<String>)
        requires
            self.well_formed(),
        ensures
            ascending(texts(names@)),
            forall|name: Seq<char>| #[trigger]
                texts(names@).contains(name) <==> self.database@.contains_key(name),
    {
        self.database.models()
    }

    pub fn model_spec(&self, model: &str) -> (settings: Option<&EpsonSpec>)
        requires
            self.well_formed(),
        ensures
            match settings {
                Some(settings) => self.database@.contains_key(model@) && settings@
                    == self.database@[model@],
                None => !self.database@.contains_key(model@),
            },
    {
        self.database.get(model)
    }

    /// Returns bundled model names whose explicit VID/PID exactly matches.
    ///
    /// A match is a display hint only; USB descriptors do not confirm printer
    /// identity.
    pub fn model_hints_for_usb_candidate(&self, vendor_id: u16, product_id: u16) -> (hints: Vec<
        String,
    >)
        requires
            self.well_formed(),
        ensures
            hints_for(texts(hints@), self.database@, vendor_id, product_id),
    {
        model_hints_for_usb_candidate(&self.database, vendor_id, product_id)
    }
}

/// Which models are hinted at: those whose vendor and whose product are both the ones
/// that the device names.
pub proof fn hints_need_both_identifiers(
    names: Seq<Seq<char>>,
    database: Map<Seq<char>, SpecView>,
    vendor_id: u16,
    product_id: u16,
    name: Seq<char>,
)
    requires
        hints_for(names, database, vendor_id, product_id),
    ensures
        names.contains(name) <==> database.contains_key(name) && database[name].vendor_id
            == vendor_id && (database[name].product_id matches Some(product) && product
            == product_id),
        forall|i: int, j: int|
            0 <= i < j < names.len() ==> text_less(#[trigger] names[i], #[trigger] names[j]),
{
}

} // verus!
