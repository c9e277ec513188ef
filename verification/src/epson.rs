//! Model-specific Epson EEPROM settings.
use crate::scan::{
    find_chars, lower_char, lower_characters, lower_text, occurs, occurs_at,
};
use crate::text::same_text;
use vstd::prelude::*;

verus! {

/// Number of bytes used to encode an EEPROM address.
#[derive(Clone, Copy, Debug, PartialEq, Eq, Structural)]
pub enum AddressWidth {
    One,
    Two,
}

/// A configured EEPROM counter or maintenance operation.
#[derive(Clone, Debug, PartialEq, Eq)]
pub struct MemoryOperation {
    pub description: String,
    pub addresses: Vec<u16>,
    pub reset_values: Vec<u8>,
    /// Whether `reset_values` was explicitly declared in the model metadata.
    ///
    /// Missing reset values are never taken to be zero: a guarded physical reset
    /// writes only values that the metadata declares.
    pub reset_values_declared: bool,
    pub minimum: Option<u32>,
}

/// The contents of a memory operation.
pub struct OperationView {
    pub description: Seq<char>,
    pub addresses: Seq<u16>,
    pub reset_values: Seq<u8>,
    pub reset_values_declared: bool,
    pub minimum: Option<u32>,
}

impl View for MemoryOperation {
    type V = OperationView;

    open spec fn view(&self) -> OperationView {
        OperationView {
            description: self.description@,
            addresses: self.addresses@,
            reset_values: self.reset_values@,
            reset_values_declared: self.reset_values_declared,
            minimum: self.minimum,
        }
    }
}

/// Encoding used only to display a read-only EEPROM field.
#[derive(Clone, Copy, Debug, PartialEq, Eq, Structural)]
pub enum EepromFieldEncoding {
    U8,
    U16Le,
    U32Le,
    Ascii,
    RawBytes,
}

/// Strength of the evidence behind a read-only EEPROM interpretation.
#[derive(Clone, Copy, Debug, PartialEq, Eq, Structural)]
pub enum EepromFieldConfidence {
    Confirmed,
    StronglyRelated,
    RelatedUnknown,
}

/// A read-only interpretation for one contiguous EEPROM field.
///
/// It authorizes no writes, defines no reset values, and implies no write order.
#[derive(Clone, Debug, PartialEq, Eq)]
pub struct EepromField {
    /// First EEPROM address in the field's inclusive range.
    pub address: u16,
    /// Last EEPROM address in the field's inclusive range.
    pub end_address: u16,
    pub label: String,
    pub encoding: EepromFieldEncoding,
    pub confidence: EepromFieldConfidence,
    /// Human-readable provenance and limitations of this interpretation.
    pub evidence_note: String,
    /// Whether a UI must hide the decoded value by default.
    pub sensitive: bool,
}

/// The contents of a read-only field.
pub struct FieldView {
    pub address: u16,
    pub end_address: u16,
    pub label: Seq<char>,
    pub encoding: EepromFieldEncoding,
    pub confidence: EepromFieldConfidence,
    pub evidence_note: Seq<char>,
    pub sensitive: bool,
}

impl View for EepromField {
    type V = FieldView;

    open spec fn view(&self) -> FieldView {
        FieldView {
            address: self.address,
            end_address: self.end_address,
            label: self.label@,
            encoding: self.encoding,
            confidence: self.confidence,
            evidence_note: self.evidence_note@,
            sensitive: self.sensitive,
        }
    }
}

/// A counter family with separately declared reset semantics.
#[derive(Clone, Copy, Debug, PartialEq, Eq, Structural)]
pub enum CounterResetTarget {
    Waste,
    PlatenPad,
}

/// Model-specific Epson EEPROM settings.
#[derive(Clone, Debug, PartialEq, Eq)]
pub struct EpsonSpec {
    pub model: String,
    pub brand: String,
    pub vendor_id: u16,
    pub product_id: Option<u16>,
    pub read_key: u16,
    pub write_key: Option<Vec<u8>>,
    pub shifted_write_key: Option<String>,
    pub read_address_width: AddressWidth,
    pub write_address_width: AddressWidth,
    pub memory_low: u16,
    pub memory_high: u16,
    pub memory_operations: Vec<MemoryOperation>,
    /// Read-only EEPROM display metadata without reset or write semantics.
    pub read_only_fields: Vec<EepromField>,
}

/// The contents of model-specific settings.
pub struct SpecView {
    pub model: Seq<char>,
    pub brand: Seq<char>,
    pub vendor_id: u16,
    pub product_id: Option<u16>,
    pub read_key: u16,
    pub write_key: Option<Seq<u8>>,
    pub shifted_write_key: Option<Seq<char>>,
    pub read_address_width: AddressWidth,
    pub write_address_width: AddressWidth,
    pub memory_low: u16,
    pub memory_high: u16,
    pub memory_operations: Seq<OperationView>,
    pub read_only_fields: Seq<FieldView>,
}

/// The contents of several operations.
pub open spec fn operation_views(operations: Seq<MemoryOperation>) -> Seq<OperationView> {
    Seq::new(operations.len(), |i: int| operations[i]@)
}

/// The contents of several fields.
pub open spec fn field_views(fields: Seq<EepromField>) -> Seq<FieldView> {
    Seq::new(fields.len(), |i: int| fields[i]@)
}

/// The text of an optional string.
pub open spec fn optional_text(text: Option<String>) -> Option<Seq<char>> {
    match text {
        Some(text) => Some(text@),
        None => None,
    }
}

/// The bytes of an optional vector.
pub open spec fn optional_bytes(bytes: Option<Vec<u8>>) -> Option<Seq<u8>> {
    match bytes {
        Some(bytes) => Some(bytes@),
        None => None,
    }
}

impl View for EpsonSpec {
    type V = SpecView;

    open spec fn view(&self) -> SpecView {
        SpecView {
            model: self.model@,
            brand: self.brand@,
            vendor_id: self.vendor_id,
            product_id: self.product_id,
            read_key: self.read_key,
            write_key: optional_bytes(self.write_key),
            shifted_write_key: optional_text(self.shifted_write_key),
            read_address_width: self.read_address_width,
            write_address_width: self.write_address_width,
            memory_low: self.memory_low,
            memory_high: self.memory_high,
            memory_operations: operation_views(self.memory_operations@),
            read_only_fields: field_views(self.read_only_fields@),
        }
    }
}

/// Invalid or unsafe Epson model metadata.
#[derive(Clone, Debug, PartialEq, Eq)]
pub enum SpecError {
    /// The metadata is not the TOML document it should be.
    Toml { message: String },
    InvalidAddressWidth { field: &'static str, value: u8 },
    InvalidMemoryRange { low: u16, high: u16 },
    InvalidWriteKeyLength { length: usize },
    NonLatin1WriteKey,
    EmptyMemoryOperation { description: String },
    ResetLengthMismatch { description: String, addresses: usize, reset_values: usize },
    InvalidReadOnlyFieldLocation { label: String },
    InvalidReadOnlyFieldRange { label: String, address: u16, end_address: u16 },
    ReadOnlyFieldOutsideMemoryRange {
        label: String,
        address: u16,
        end_address: u16,
        memory_low: u16,
        memory_high: u16,
    },
    InvalidReadOnlyFieldEncoding { label: String, encoding: String },
    InvalidReadOnlyFieldConfidence { label: String, confidence: String },
    ReadOnlyFieldLengthMismatch {
        label: String,
        encoding: EepromFieldEncoding,
        byte_len: usize,
    },
    OverlappingReadOnlyFields { first: String, second: String },
}

/// The contents of a metadata error.
pub enum SpecErrorView {
    Toml { message: Seq<char> },
    InvalidAddressWidth { field: Seq<char>, value: u8 },
    InvalidMemoryRange { low: u16, high: u16 },
    InvalidWriteKeyLength { length: nat },
    NonLatin1WriteKey,
    EmptyMemoryOperation { description: Seq<char> },
    ResetLengthMismatch { description: Seq<char>, addresses: nat, reset_values: nat },
    InvalidReadOnlyFieldLocation { label: Seq<char> },
    InvalidReadOnlyFieldRange { label: Seq<char>, address: u16, end_address: u16 },
    ReadOnlyFieldOutsideMemoryRange {
        label: Seq<char>,
        address: u16,
        end_address: u16,
        memory_low: u16,
        memory_high: u16,
    },
    InvalidReadOnlyFieldEncoding { label: Seq<char>, encoding: Seq<char> },
    InvalidReadOnlyFieldConfidence { label: Seq<char>, confidence: Seq<char> },
    ReadOnlyFieldLengthMismatch {
        label: Seq<char>,
        encoding: EepromFieldEncoding,
        byte_len: nat,
    },
    OverlappingReadOnlyFields { first: Seq<char>, second: Seq<char> },
}

impl View for SpecError {
    type V = SpecErrorView;

    open spec fn view(&self) -> SpecErrorView {
        match *self {
            SpecError::Toml { message } => SpecErrorView::Toml { message: message@ },
            SpecError::InvalidAddressWidth { field, value } => SpecErrorView::InvalidAddressWidth {
                field: field@,
                value,
            },
            SpecError::InvalidMemoryRange { low, high } => SpecErrorView::InvalidMemoryRange {
                low,
                high,
            },
            SpecError::InvalidWriteKeyLength { length } => SpecErrorView::InvalidWriteKeyLength {
                length: length as nat,
            },
            SpecError::NonLatin1WriteKey => SpecErrorView::NonLatin1WriteKey,
            SpecError::EmptyMemoryOperation { description } =>
                SpecErrorView::EmptyMemoryOperation { description: description@ },
            SpecError::ResetLengthMismatch { description, addresses, reset_values } =>
                SpecErrorView::ResetLengthMismatch {
                description: description@,
                addresses: addresses as nat,
                reset_values: reset_values as nat,
            },
            SpecError::InvalidReadOnlyFieldLocation { label } =>
                SpecErrorView::InvalidReadOnlyFieldLocation { label: label@ },
            SpecError::InvalidReadOnlyFieldRange { label, address, end_address } =>
                SpecErrorView::InvalidReadOnlyFieldRange { label: label@, address, end_address },
            SpecError::ReadOnlyFieldOutsideMemoryRange {
                label,
                address,
                end_address,
                memory_low,
                memory_high,
            } => SpecErrorView::ReadOnlyFieldOutsideMemoryRange {
                label: label@,
                address,
                end_address,
                memory_low,
                memory_high,
            },
            SpecError::InvalidReadOnlyFieldEncoding { label, encoding } =>
                SpecErrorView::InvalidReadOnlyFieldEncoding {
                label: label@,
                encoding: encoding@,
            },
            SpecError::InvalidReadOnlyFieldConfidence { label, confidence } =>
                SpecErrorView::InvalidReadOnlyFieldConfidence {
                label: label@,
                confidence: confidence@,
            },
            SpecError::ReadOnlyFieldLengthMismatch { label, encoding, byte_len } =>
                SpecErrorView::ReadOnlyFieldLengthMismatch {
                label: label@,
                encoding,
                byte_len: byte_len as nat,
            },
            SpecError::OverlappingReadOnlyFields { first, second } =>
                SpecErrorView::OverlappingReadOnlyFields { first: first@, second: second@ },
        }
    }
}

/// The width that a declared number of bytes stands for.
pub open spec fn width_of(field: Seq<char>, value: u8) -> Result<AddressWidth, SpecErrorView> {
    if value == 1 {
        Ok(AddressWidth::One)
    } else if value == 2 {
        Ok(AddressWidth::Two)
    } else {
        Err(SpecErrorView::InvalidAddressWidth { field, value })
    }
}

impl AddressWidth {
    pub fn byte_len(self) -> (length: usize)
        ensures
            length == (match self {
                AddressWidth::One => 1,
                AddressWidth::Two => 2int,
            }),
    {
        match self {
            AddressWidth::One => 1,
            AddressWidth::Two => 2,
        }
    }

    pub fn from_raw(field: &'static str, value: u8) -> (width: Result<Self, SpecError>)
        ensures
            match (width, width_of(field@, value)) {
                (Ok(width), Ok(expected)) => width == expected,
                (Err(error), Err(expected)) => error@ == expected,
                _ => false,
            },
    {
        if value == 1 {
            Ok(AddressWidth::One)
        } else if value == 2 {
            Ok(AddressWidth::Two)
        } else {
            Err(SpecError::InvalidAddressWidth { field, value })
        }
    }
}

impl MemoryOperation {
    pub fn has_declared_reset_values(&self) -> (declared: bool)
        ensures
            declared == self@.reset_values_declared,
    {
        self.reset_values_declared
    }

    /// A copy with the same contents.
    pub fn duplicate(&self) -> (copy: Self)
        ensures
            copy@ == self@,
    {
        MemoryOperation {
            description: self.description.clone(),
            addresses: vstd::slice::slice_to_vec(self.addresses.as_slice()),
            reset_values: vstd::slice::slice_to_vec(self.reset_values.as_slice()),
            reset_values_declared: self.reset_values_declared,
            minimum: self.minimum,
        }
    }
}

impl EepromField {
    pub fn byte_len(&self) -> (length: usize)
        requires
            self.address <= self.end_address,
        ensures
            length == self.end_address - self.address + 1,
    {
        self.end_address as usize - self.address as usize + 1
    }

    /// A copy with the same contents.
    pub fn duplicate(&self) -> (copy: Self)
        ensures
            copy@ == self@,
    {
        EepromField {
            address: self.address,
            end_address: self.end_address,
            label: self.label.clone(),
            encoding: self.encoding,
            confidence: self.confidence,
            evidence_note: self.evidence_note.clone(),
            sensitive: self.sensitive,
        }
    }
}

/// The words for an encoding.
pub open spec fn encoding_label(encoding: EepromFieldEncoding) -> Seq<char> {
    match encoding {
        EepromFieldEncoding::U8 => "u8"@,
        EepromFieldEncoding::U16Le => "little-endian u16"@,
        EepromFieldEncoding::U32Le => "little-endian u32"@,
        EepromFieldEncoding::Ascii => "ASCII"@,
        EepromFieldEncoding::RawBytes => "raw bytes"@,
    }
}

/// The number of bytes that an encoding needs, where it needs a certain one.
pub open spec fn encoding_length(encoding: EepromFieldEncoding) -> Option<usize> {
    match encoding {
        EepromFieldEncoding::U8 => Some(1),
        EepromFieldEncoding::U16Le => Some(2),
        EepromFieldEncoding::U32Le => Some(4),
        EepromFieldEncoding::Ascii => None,
        EepromFieldEncoding::RawBytes => None,
    }
}

/// The encoding that a word in the metadata stands for.
pub open spec fn encoding_of(label: Seq<char>, value: Seq<char>) -> Result<
    EepromFieldEncoding,
    SpecErrorView,
> {
    if value == "u8"@ {
        Ok(EepromFieldEncoding::U8)
    } else if value == "u16le"@ {
        Ok(EepromFieldEncoding::U16Le)
    } else if value == "u32le"@ {
        Ok(EepromFieldEncoding::U32Le)
    } else if value == "ascii"@ {
        Ok(EepromFieldEncoding::Ascii)
    } else if value == "raw"@ {
        Ok(EepromFieldEncoding::RawBytes)
    } else {
        Err(SpecErrorView::InvalidReadOnlyFieldEncoding { label, encoding: value })
    }
}

impl EepromFieldEncoding {
    pub fn label(self) -> (label: &'static str)
        ensures
            label@ == encoding_label(self),
    {
        match self {
            EepromFieldEncoding::U8 => "u8",
            EepromFieldEncoding::U16Le => "little-endian u16",
            EepromFieldEncoding::U32Le => "little-endian u32",
            EepromFieldEncoding::Ascii => "ASCII",
            EepromFieldEncoding::RawBytes => "raw bytes",
        }
    }

    pub fn fixed_byte_len(self) -> (length: Option<usize>)
        ensures
            length == encoding_length(self),
    {
        match self {
            EepromFieldEncoding::U8 => Some(1),
            EepromFieldEncoding::U16Le => Some(2),
            EepromFieldEncoding::U32Le => Some(4),
            EepromFieldEncoding::Ascii => None,
            EepromFieldEncoding::RawBytes => None,
        }
    }

    pub fn from_raw(label: &str, value: &str) -> (encoding: Result<Self, SpecError>)
        ensures
            match (encoding, encoding_of(label@, value@)) {
                (Ok(encoding), Ok(expected)) => encoding == expected,
                (Err(error), Err(expected)) => error@ == expected,
                _ => false,
            },
    {
        if same_text(value, "u8") {
            Ok(EepromFieldEncoding::U8)
        } else if same_text(value, "u16le") {
            Ok(EepromFieldEncoding::U16Le)
        } else if same_text(value, "u32le") {
            Ok(EepromFieldEncoding::U32Le)
        } else if same_text(value, "ascii") {
            Ok(EepromFieldEncoding::Ascii)
        } else if same_text(value, "raw") {
            Ok(EepromFieldEncoding::RawBytes)
        } else {
            Err(
                SpecError::InvalidReadOnlyFieldEncoding {
                    label: label.to_owned(),
                    encoding: value.to_owned(),
                },
            )
        }
    }
}

/// The words for a confidence.
pub open spec fn confidence_label(confidence: EepromFieldConfidence) -> Seq<char> {
    match confidence {
        EepromFieldConfidence::Confirmed => "Confirmed"@,
        EepromFieldConfidence::StronglyRelated => "Strongly related"@,
        EepromFieldConfidence::RelatedUnknown => "Related; role unknown"@,
    }
}

/// The confidence that a word in the metadata stands for.
pub open spec fn confidence_of(label: Seq<char>, value: Seq<char>) -> Result<
    EepromFieldConfidence,
    SpecErrorView,
> {
    if value == "confirmed"@ {
        Ok(EepromFieldConfidence::Confirmed)
    } else if value == "strongly-related"@ {
        Ok(EepromFieldConfidence::StronglyRelated)
    } else if value == "related-unknown"@ {
        Ok(EepromFieldConfidence::RelatedUnknown)
    } else {
        Err(SpecErrorView::InvalidReadOnlyFieldConfidence { label, confidence: value })
    }
}

impl EepromFieldConfidence {
    pub fn label(self) -> (label: &'static str)
        ensures
            label@ == confidence_label(self),
    {
        match self {
            EepromFieldConfidence::Confirmed => "Confirmed",
            EepromFieldConfidence::StronglyRelated => "Strongly related",
            EepromFieldConfidence::RelatedUnknown => "Related; role unknown",
        }
    }

    pub fn from_raw(label: &str, value: &str) -> (confidence: Result<Self, SpecError>)
        ensures
            match (confidence, confidence_of(label@, value@)) {
                (Ok(confidence), Ok(expected)) => confidence == expected,
                (Err(error), Err(expected)) => error@ == expected,
                _ => false,
            },
    {
        if same_text(value, "confirmed") {
            Ok(EepromFieldConfidence::Confirmed)
        } else if same_text(value, "strongly-related") {
            Ok(EepromFieldConfidence::StronglyRelated)
        } else if same_text(value, "related-unknown") {
            Ok(EepromFieldConfidence::RelatedUnknown)
        } else {
            Err(
                SpecError::InvalidReadOnlyFieldConfidence {
                    label: label.to_owned(),
                    confidence: value.to_owned(),
                },
            )
        }
    }
}

/// The words for a counter family, which also mark its operations.
pub open spec fn target_name(target: CounterResetTarget) -> Seq<char> {
    match target {
        CounterResetTarget::Waste => "waste counter"@,
        CounterResetTarget::PlatenPad => "platen pad counter"@,
    }
}

impl CounterResetTarget {
    pub fn description_fragment(self) -> (fragment: &'static str)
        ensures
            fragment@ == target_name(self),
    {
        match self {
            CounterResetTarget::Waste => "waste counter",
            CounterResetTarget::PlatenPad => "platen pad counter",
        }
    }

    pub fn display_name(self) -> (name: &'static str)
        ensures
            name@ == target_name(self),
    {
        match self {
            CounterResetTarget::Waste => "waste counter",
            CounterResetTarget::PlatenPad => "platen pad counter",
        }
    }
}

/// The addresses of an operation with the values they are reset to.
pub open spec fn reset_pairs(operation: OperationView) -> Seq<(u16, u8)> {
    let length = if operation.addresses.len() < operation.reset_values.len() {
        operation.addresses.len()
    } else {
        operation.reset_values.len()
    };
    Seq::new(length, |i: int| (operation.addresses[i], operation.reset_values[i]))
}

/// An operation whose description holds a fragment, whatever the case of the
/// letters, and whose reset values are declared.
pub open spec fn mergeable(operation: OperationView, fragment: Seq<char>) -> bool {
    operation.reset_values_declared && occurs(
        lower_text(operation.description),
        lower_text(fragment),
    )
}

/// The resets of all operations that a fragment selects, in the order in which
/// they are declared.
pub open spec fn declared_resets(operations: Seq<OperationView>, fragment: Seq<char>) -> Seq<
    (u16, u8),
>
    decreases operations.len(),
{
    if operations.len() == 0 {
        seq![]
    } else {
        let earlier = declared_resets(operations.drop_last(), fragment);
        if mergeable(operations.last(), fragment) {
            earlier + reset_pairs(operations.last())
        } else {
            earlier
        }
    }
}

/// The list holds an address at a position.
pub open spec fn address_at(list: Seq<(u16, u8)>, address: u16, index: int) -> bool {
    0 <= index < list.len() && list[index].0 == address
}

/// The list with a value recorded for an address: in place, where the address
/// is listed, and at the end otherwise.
pub open spec fn record_reset(list: Seq<(u16, u8)>, reset: (u16, u8)) -> Seq<(u16, u8)> {
    if exists|index: int| address_at(list, reset.0, index) {
        Seq::new(
            list.len(),
            |i: int|
                if list[i].0 == reset.0 {
                    reset
                } else {
                    list[i]
                },
        )
    } else {
        list.push(reset)
    }
}

/// All resets recorded one after the other.
pub open spec fn merged_resets(resets: Seq<(u16, u8)>) -> Seq<(u16, u8)>
    decreases resets.len(),
{
    if resets.len() == 0 {
        seq![]
    } else {
        record_reset(merged_resets(resets.drop_last()), resets.last())
    }
}

/// The operation that a fragment selects, if any reset is declared for it.
pub open spec fn merged_view(spec_: SpecView, fragment: Seq<char>) -> Option<OperationView> {
    let merged = merged_resets(declared_resets(spec_.memory_operations, fragment));
    if merged.len() == 0 {
        None
    } else {
        Some(
            OperationView {
                description: "All "@ + fragment + "s"@,
                addresses: Seq::new(merged.len(), |i: int| merged[i].0),
                reset_values: Seq::new(merged.len(), |i: int| merged[i].1),
                reset_values_declared: true,
                minimum: None,
            },
        )
    }
}

/// The pairs of two lists of equal length.
spec fn paired(addresses: Seq<u16>, values: Seq<u8>) -> Seq<(u16, u8)> {
    Seq::new(addresses.len(), |i: int| (addresses[i], values[i]))
}

/// No address is listed twice.
pub open spec fn distinct_addresses(list: Seq<(u16, u8)>) -> bool {
    forall|i: int, j: int|
        0 <= i < j < list.len() ==> (#[trigger] list[i]).0 != (#[trigger] list[j]).0
}

fn record(addresses: &mut Vec<u16>, values: &mut Vec<u8>, address: u16, value: u8)
    requires
        old(addresses)@.len() == old(values)@.len(),
        distinct_addresses(paired(old(addresses)@, old(values)@)),
    ensures
        final(addresses)@.len() == final(values)@.len(),
        paired(final(addresses)@, final(values)@) == record_reset(
            paired(old(addresses)@, old(values)@),
            (address, value),
        ),
        distinct_addresses(paired(final(addresses)@, final(values)@)),
{
    let ghost list = paired(addresses@, values@);
    let mut index: usize = 0;
    while index < addresses.len()
        invariant
            index <= addresses@.len(),
            addresses@ == old(addresses)@,
            values@ == old(values)@,
            addresses@.len() == values@.len(),
            list == paired(addresses@, values@),
            distinct_addresses(list),
            forall|i: int| 0 <= i < index ==> (#[trigger] list[i]).0 != address,
        decreases addresses.len() - index,
    {
        if addresses[index] == address {
            values.set(index, value);
            proof {
                assert(address_at(list, address, index as int));
                assert forall|i: int| 0 <= i < list.len() && i != index implies (
                #[trigger] list[i]).0 != address by {
                    if index < i {
                        assert(list[index as int].0 != list[i].0);
                    }
                }
                let updated = paired(addresses@, values@);
                let reset = (address, value);
                let expected = record_reset(list, reset);
                assert(address_at(list, reset.0, index as int));
                lemma_record_reset(list, reset);
                assert(updated.len() == expected.len());
                assert forall|i: int| 0 <= i < updated.len() implies updated[i] == expected[i] by {
                    assert(list[i].0 == updated[i].0);
                }
                assert(updated =~= expected);
                assert forall|i: int, j: int| 0 <= i < j < updated.len() implies (
                #[trigger] updated[i]).0 != (#[trigger] updated[j]).0 by {
                    assert(list[i].0 != list[j].0);
                }
            }
            return ;
        }
        index = index + 1;
    }
    addresses.push(address);
    values.push(value);
    proof {
        let extended = paired(addresses@, values@);
        assert(extended =~= list.push((address, value)));
        assert(!(exists|i: int| address_at(list, address, i)));
        assert forall|i: int, j: int| 0 <= i < j < extended.len() implies (#[trigger] extended[i]).0
            != (#[trigger] extended[j]).0 by {
            assert(list[i].0 != address);
            if j < list.len() {
                assert(list[i].0 != list[j].0);
            }
        }
    }
}

impl EpsonSpec {
    /// Merges matching operations with explicit reset bytes while retaining the
    /// first address order.
    ///
    /// Address values later in the specification replace earlier values.
    pub fn merged_operation(&self, description_fragment: &str) -> (operation: Option<
        MemoryOperation,
    >)
        ensures
            match (operation, merged_view(self@, description_fragment@)) {
                (Some(operation), Some(expected)) => operation@ == expected,
                (None, None) => true,
                _ => false,
            },
    {
        let fragment = lower_characters(description_fragment);
        let mut addresses: Vec<u16> = Vec::new();
        let mut values: Vec<u8> = Vec::new();
        let mut index: usize = 0;
        let ghost operations = self@.memory_operations;
        proof {
            assert(operations.take(0) =~= seq![]);
            assert(paired(addresses@, values@) =~= seq![]);
        }
        while index < self.memory_operations.len()
            invariant
                index <= self.memory_operations@.len(),
                operations == self@.memory_operations,
                fragment@ == lower_text(description_fragment@),
                addresses@.len() == values@.len(),
                distinct_addresses(paired(addresses@, values@)),
                paired(addresses@, values@) == merged_resets(
                    declared_resets(operations.take(index as int), description_fragment@),
                ),
            decreases self.memory_operations.len() - index,
        {
            let operation = &self.memory_operations[index];
            let description = lower_characters(operation.description.as_str());
            let matches = find_chars(description.as_slice(), fragment.as_slice()).is_some();
            let ghost earlier = declared_resets(operations.take(index as int), description_fragment@);
            proof {
                assert(operations.take(index + 1).drop_last() =~= operations.take(index as int));
                assert(operations.take(index + 1).last() == operation@);
            }
            if matches && operation.has_declared_reset_values() {
                let ghost pairs = reset_pairs(operation@);
                let mut entry: usize = 0;
                proof {
                    assert(earlier + pairs.take(0) =~= earlier);
                }
                while entry < operation.addresses.len() && entry < operation.reset_values.len()
                    invariant
                        entry <= operation.addresses@.len(),
                        entry <= operation.reset_values@.len(),
                        pairs == reset_pairs(operation@),
                        addresses@.len() == values@.len(),
                        distinct_addresses(paired(addresses@, values@)),
                        paired(addresses@, values@) == merged_resets(
                            earlier + pairs.take(entry as int),
                        ),
                    decreases operation.addresses.len() - entry,
                {
                    proof {
                        let longer = earlier + pairs.take(entry + 1);
                        assert(longer.drop_last() =~= earlier + pairs.take(entry as int));
                        assert(longer.last() == pairs[entry as int]);
                    }
                    record(
                        &mut addresses,
                        &mut values,
                        operation.addresses[entry],
                        operation.reset_values[entry],
                    );
                    entry = entry + 1;
                }
                proof {
                    assert(pairs.take(entry as int) =~= pairs);
                }
            }
            index = index + 1;
        }
        proof {
            assert(operations.take(index as int) =~= operations);
        }
        if addresses.len() == 0 {
            return None;
        }
        let operation = MemoryOperation {
            description: String::from_str("All ").concat(description_fragment).concat("s"),
            addresses,
            reset_values: values,
            reset_values_declared: true,
            minimum: None,
        };
        proof {
            let merged = paired(operation.addresses@, operation.reset_values@);
            assert(operation.addresses@ =~= Seq::new(merged.len(), |i: int| merged[i].0));
            assert(operation.reset_values@ =~= Seq::new(merged.len(), |i: int| merged[i].1));
        }
        Some(operation)
    }

    pub fn waste_counter_reset(&self) -> (operation: Option<MemoryOperation>)
        ensures
            match (operation, merged_view(self@, target_name(CounterResetTarget::Waste))) {
                (Some(operation), Some(expected)) => operation@ == expected,
                (None, None) => true,
                _ => false,
            },
    {
        self.counter_reset(CounterResetTarget::Waste)
    }

    pub fn platen_pad_counter_reset(&self) -> (operation: Option<MemoryOperation>)
        ensures
            match (operation, merged_view(self@, target_name(CounterResetTarget::PlatenPad))) {
                (Some(operation), Some(expected)) => operation@ == expected,
                (None, None) => true,
                _ => false,
            },
    {
        self.counter_reset(CounterResetTarget::PlatenPad)
    }

    /// Returns a physical-reset operation composed only of explicitly declared
    /// byte values for the requested counter family.
    pub fn counter_reset(&self, target: CounterResetTarget) -> (operation: Option<MemoryOperation>)
        ensures
            match (operation, merged_view(self@, target_name(target))) {
                (Some(operation), Some(expected)) => operation@ == expected,
                (None, None) => true,
                _ => false,
            },
    {
        self.merged_operation(target.description_fragment())
    }
}

/// What recording a reset does to each place of a list.
proof fn lemma_record_reset(list: Seq<(u16, u8)>, reset: (u16, u8))
    ensures
        ({
            let recorded = record_reset(list, reset);
            let known = exists|index: int| address_at(list, reset.0, index);
            &&& recorded.len() == list.len() + if known {
                0int
            } else {
                1int
            }
            &&& !known ==> recorded.last() == reset
            &&& forall|i: int|
                0 <= i < list.len() ==> (#[trigger] recorded[i]) == (if list[i].0 == reset.0 {
                    reset
                } else {
                    list[i]
                })
        }),
{
    let known = exists|index: int| address_at(list, reset.0, index);
    if !known {
        assert forall|i: int| 0 <= i < list.len() implies (#[trigger] list[i]).0 != reset.0 by {
            assert(!address_at(list, reset.0, i));
        }
    }
}

/// Merged resets list each address once.
pub proof fn merged_resets_list_each_address_once(resets: Seq<(u16, u8)>)
    ensures
        distinct_addresses(merged_resets(resets)),
    decreases resets.len(),
{
    let merged = merged_resets(resets);
    if resets.len() > 0 {
        let before = merged_resets(resets.drop_last());
        merged_resets_list_each_address_once(resets.drop_last());
        lemma_record_reset(before, resets.last());
        assert forall|i: int, j: int| 0 <= i < j < merged.len() implies (#[trigger] merged[i]).0 != (
        #[trigger] merged[j]).0 by {
            assert(merged[i].0 == before[i].0);
            if j < before.len() {
                assert(before[i].0 != before[j].0);
            } else {
                assert(!address_at(before, resets.last().0, i));
            }
        }
    }
}

/// Merged resets hold exactly the declared addresses, each with the value that
/// is declared for it last.
pub proof fn merged_resets_hold_last_values(resets: Seq<(u16, u8)>)
    ensures
        forall|i: int|
            0 <= i < merged_resets(resets).len() ==> holds_last_value(
                resets,
                #[trigger] merged_resets(resets)[i],
            ),
        forall|i: int|
            0 <= i < resets.len() ==> lists_address(
                merged_resets(resets),
                (#[trigger] resets[i]).0,
            ),
    decreases resets.len(),
{
    let merged = merged_resets(resets);
    if resets.len() > 0 {
        let shorter = resets.drop_last();
        let before = merged_resets(shorter);
        let newest = resets.last();
        let end = resets.len() - 1;
        merged_resets_hold_last_values(shorter);
        lemma_record_reset(before, newest);
        assert forall|i: int| 0 <= i < merged.len() implies holds_last_value(
            resets,
            #[trigger] merged[i],
        ) by {
            if merged[i].0 == newest.0 {
                assert(last_reset(resets, merged[i].0, end));
            } else {
                assert(holds_last_value(shorter, before[i]));
                let last = choose|last: int|
                    #[trigger] last_reset(shorter, before[i].0, last) && before[i] == shorter[last];
                assert forall|later: int| last < later < resets.len() implies (
                #[trigger] resets[later]).0 != merged[i].0 by {
                    if later < end {
                        assert(shorter[later].0 != merged[i].0);
                    }
                }
                assert(last_reset(resets, merged[i].0, last));
            }
        }
        assert forall|i: int| 0 <= i < resets.len() implies lists_address(
            merged,
            (#[trigger] resets[i]).0,
        ) by {
            if i < end {
                assert(lists_address(before, shorter[i].0));
                let place = choose|place: int| address_at(before, shorter[i].0, place);
                assert(merged[place].0 == before[place].0);
                assert(address_at(merged, resets[i].0, place));
            } else if lists_address(before, newest.0) {
                let place = choose|place: int| address_at(before, newest.0, place);
                assert(merged[place].0 == before[place].0);
                assert(address_at(merged, newest.0, place));
            } else {
                assert(address_at(merged, newest.0, before.len() as int));
            }
        }
    }
}

/// Merged resets keep the order in which their addresses are first declared.
pub proof fn merged_resets_keep_first_order(resets: Seq<(u16, u8)>)
    ensures
        forall|i: int, j: int|
            0 <= i < j < merged_resets(resets).len() ==> declared_before(
                resets,
                (#[trigger] merged_resets(resets)[i]).0,
                (#[trigger] merged_resets(resets)[j]).0,
            ),
    decreases resets.len(),
{
    let merged = merged_resets(resets);
    if resets.len() > 0 {
        let shorter = resets.drop_last();
        let before = merged_resets(shorter);
        let newest = resets.last();
        let end = resets.len() - 1;
        merged_resets_keep_first_order(shorter);
        merged_resets_hold_last_values(shorter);
        lemma_record_reset(before, newest);
        assert forall|i: int, j: int| 0 <= i < j < merged.len() implies declared_before(
            resets,
            (#[trigger] merged[i]).0,
            (#[trigger] merged[j]).0,
        ) by {
            assert(merged[i].0 == before[i].0);
            if j < before.len() {
                assert(merged[j].0 == before[j].0);
                assert(declared_before(shorter, before[i].0, before[j].0));
                let (a, b) = choose|a: int, b: int|
                    a < b && #[trigger] first_reset(shorter, before[i].0, a)
                        && #[trigger] first_reset(shorter, before[j].0, b);
                lemma_first_reset_extends(resets, before[i].0, a);
                lemma_first_reset_extends(resets, before[j].0, b);
            } else {
                assert(holds_last_value(shorter, before[i]));
                let last = choose|last: int|
                    #[trigger] last_reset(shorter, before[i].0, last) && before[i] == shorter[last];
                lemma_first_reset(shorter, before[i].0, last);
                let a = choose|a: int| first_reset(shorter, before[i].0, a);
                lemma_first_reset_extends(resets, before[i].0, a);
                assert forall|e: int| 0 <= e < end implies (#[trigger] resets[e]).0 != newest.0 by {
                    assert(lists_address(before, shorter[e].0));
                    assert(!lists_address(before, newest.0));
                }
                assert(first_reset(resets, merged[j].0, end));
            }
        }
    }
}

/// An entry carries the value that is declared last for its address.
pub open spec fn holds_last_value(resets: Seq<(u16, u8)>, entry: (u16, u8)) -> bool {
    exists|last: int| #[trigger] last_reset(resets, entry.0, last) && entry == resets[last]
}

/// A list holds an address.
pub open spec fn lists_address(list: Seq<(u16, u8)>, address: u16) -> bool {
    exists|place: int| address_at(list, address, place)
}

/// An address is declared for the first time before another one is.
pub open spec fn declared_before(resets: Seq<(u16, u8)>, earlier: u16, later: u16) -> bool {
    exists|a: int, b: int|
        a < b && #[trigger] first_reset(resets, earlier, a) && #[trigger] first_reset(
            resets,
            later,
            b,
        )
}

proof fn lemma_first_reset_extends(resets: Seq<(u16, u8)>, address: u16, index: int)
    requires
        resets.len() > 0,
        first_reset(resets.drop_last(), address, index),
    ensures
        first_reset(resets, address, index),
{
    assert forall|e: int| 0 <= e < index implies (#[trigger] resets[e]).0 != address by {
        assert(resets.drop_last()[e].0 != address);
    }
}

/// The last reset that is declared for an address.
pub open spec fn last_reset(resets: Seq<(u16, u8)>, address: u16, index: int) -> bool {
    &&& address_at(resets, address, index)
    &&& forall|later: int| index < later < resets.len() ==> (#[trigger] resets[later]).0 != address
}

/// The first reset that is declared for an address.
pub open spec fn first_reset(resets: Seq<(u16, u8)>, address: u16, index: int) -> bool {
    &&& address_at(resets, address, index)
    &&& forall|earlier: int| 0 <= earlier < index ==> (#[trigger] resets[earlier]).0 != address
}

proof fn lemma_first_reset(resets: Seq<(u16, u8)>, address: u16, index: int)
    requires
        address_at(resets, address, index),
    ensures
        exists|first: int| first_reset(resets, address, first),
    decreases index,
{
    if exists|earlier: int| 0 <= earlier < index && (#[trigger] resets[earlier]).0 == address {
        let earlier = choose|earlier: int|
            0 <= earlier < index && (#[trigger] resets[earlier]).0 == address;
        lemma_first_reset(resets, address, earlier);
    } else {
        assert(first_reset(resets, address, index));
    }
}

/// Two characters are the same but for the case of a letter.
pub open spec fn same_letter(left: char, right: char) -> bool {
    ||| left == right
    ||| 65 <= left as int <= 90 && right as int == left as int + 32
    ||| 97 <= left as int <= 122 && right as int == left as int - 32
}

/// A text holds another one at a place, whatever the case of the letters.
pub open spec fn holds_at(text: Seq<char>, part: Seq<char>, place: int) -> bool {
    &&& 0 <= place
    &&& place + part.len() <= text.len()
    &&& forall|i: int| 0 <= i < part.len() ==> same_letter(#[trigger] text[place + i], part[i])
}

proof fn lemma_holds_at(text: Seq<char>, part: Seq<char>, place: int)
    ensures
        holds_at(text, part, place) <==> occurs_at(lower_text(text), lower_text(part), place),
{
    let low = lower_text(text);
    let small = lower_text(part);
    if holds_at(text, part, place) {
        assert forall|i: int| 0 <= i < part.len() implies low.subrange(
            place,
            place + part.len(),
        )[i] == small[i] by {
            assert(same_letter(text[place + i], part[i]));
        }
        assert(low.subrange(place, place + small.len()) =~= small);
    }
    if occurs_at(low, small, place) {
        assert forall|i: int| 0 <= i < part.len() implies same_letter(
            #[trigger] text[place + i],
            part[i],
        ) by {
            assert(low.subrange(place, place + small.len())[i] == small[i]);
            assert(low[place + i] == small[i]);
            lemma_same_lower(text[place + i], part[i]);
        }
    }
}

proof fn lemma_same_lower(left: char, right: char)
    requires
        lower_char(left) == lower_char(right),
    ensures
        same_letter(left, right),
{
}

/// What one more operation adds to the resets of a counter family: its addresses with
/// their declared values, in order, if its description holds the words for the family
/// in any case of letters and its values are declared, and nothing otherwise.
pub proof fn resets_come_from_declared_operations(
    operations: Seq<OperationView>,
    operation: OperationView,
    fragment: Seq<char>,
    place: int,
)
    ensures
        ({
            let before = declared_resets(operations, fragment);
            let after = declared_resets(operations.push(operation), fragment);
            &&& declared_resets(seq![], fragment).len() == 0
            &&& !operation.reset_values_declared ==> after == before
            &&& (forall|at: int| !#[trigger] holds_at(operation.description, fragment, at))
                ==> after == before
            &&& operation.reset_values_declared && holds_at(operation.description, fragment, place)
                && operation.addresses.len() == operation.reset_values.len() ==> {
                &&& after.len() == before.len() + operation.addresses.len()
                &&& forall|i: int| 0 <= i < before.len() ==> #[trigger] after[i] == before[i]
                &&& forall|i: int|
                    0 <= i < operation.addresses.len() ==> (#[trigger] after[before.len() + i]).0
                        == operation.addresses[i] && after[before.len() + i].1
                        == operation.reset_values[i]
            }
        }),
{
    assert(operations.push(operation).drop_last() =~= operations);
    let low = lower_text(operation.description);
    let small = lower_text(fragment);
    lemma_holds_at(operation.description, fragment, place);
    if occurs(low, small) {
        let at = choose|at: int| occurs_at(low, small, at);
        lemma_holds_at(operation.description, fragment, at);
    }
}

/// The operation that resets a counter family: each address that is declared for the
/// family stands in it once, with the value that is declared for it last.
pub proof fn merged_operations_reset_what_is_declared(settings: SpecView, fragment: Seq<char>)
    ensures
        ({
            let resets = declared_resets(settings.memory_operations, fragment);
            &&& merged_view(settings, fragment) is None <==> resets.len() == 0
            &&& merged_view(settings, fragment) matches Some(operation) ==> {
                &&& operation.reset_values_declared
                &&& operation.addresses.len() == operation.reset_values.len()
                &&& forall|i: int|
                    0 <= i < operation.addresses.len() ==> holds_last_value(
                        resets,
                        (#[trigger] operation.addresses[i], operation.reset_values[i]),
                    )
                &&& forall|i: int|
                    0 <= i < resets.len() ==> operation.addresses.contains(
                        (#[trigger] resets[i]).0,
                    )
                &&& forall|i: int, j: int|
                    0 <= i < j < operation.addresses.len() ==> #[trigger] operation.addresses[i]
                        != #[trigger] operation.addresses[j]
            }
        }),
{
    let resets = declared_resets(settings.memory_operations, fragment);
    let merged = merged_resets(resets);
    merged_resets_hold_last_values(resets);
    merged_resets_list_each_address_once(resets);
    if resets.len() > 0 {
        assert(lists_address(merged, resets[0].0));
    }
    if let Some(operation) = merged_view(settings, fragment) {
        assert forall|i: int| 0 <= i < operation.addresses.len() implies holds_last_value(
            resets,
            (#[trigger] operation.addresses[i], operation.reset_values[i]),
        ) by {
            assert(holds_last_value(resets, merged[i]));
        }
        assert forall|i: int| 0 <= i < resets.len() implies operation.addresses.contains(
            (#[trigger] resets[i]).0,
        ) by {
            assert(lists_address(merged, resets[i].0));
            let place = choose|place: int| address_at(merged, resets[i].0, place);
            assert(operation.addresses[place] == resets[i].0);
        }
        assert forall|i: int, j: int| 0 <= i < j < operation.addresses.len() implies
            #[trigger] operation.addresses[i] != #[trigger] operation.addresses[j] by {
            assert(merged[i].0 != merged[j].0);
        }
    }
}

/// The words of the metadata for encodings, and how many bytes each of them takes.
pub proof fn encodings_have_their_words(label: Seq<char>, value: Seq<char>)
    ensures
        value == "u8"@ ==> (encoding_of(label, value) matches Ok(encoding) && encoding
            == EepromFieldEncoding::U8 && encoding_length(encoding) == Some(1usize)),
        value == "u16le"@ ==> (encoding_of(label, value) matches Ok(encoding) && encoding
            == EepromFieldEncoding::U16Le && encoding_length(encoding) == Some(2usize)),
        value == "u32le"@ ==> (encoding_of(label, value) matches Ok(encoding) && encoding
            == EepromFieldEncoding::U32Le && encoding_length(encoding) == Some(4usize)),
        value == "ascii"@ ==> (encoding_of(label, value) matches Ok(encoding) && encoding
            == EepromFieldEncoding::Ascii && encoding_length(encoding) is None),
        value == "raw"@ ==> (encoding_of(label, value) matches Ok(encoding) && encoding
            == EepromFieldEncoding::RawBytes && encoding_length(encoding) is None),
        value != "u8"@ && value != "u16le"@ && value != "u32le"@ && value != "ascii"@ && value
            != "raw"@ ==> encoding_of(label, value) is Err,
{
    reveal_strlit("u8");
    reveal_strlit("u16le");
    reveal_strlit("u32le");
    reveal_strlit("ascii");
    reveal_strlit("raw");
    assert("u8"@.len() == 2 && "raw"@.len() == 3);
    assert("u16le"@[0] == 'u' && "u16le"@[1] == '1');
    assert("u32le"@[0] == 'u' && "u32le"@[1] == '3');
    assert("ascii"@[0] == 'a');
}

/// The words of the metadata for confidences, and the numbers for address widths.
pub proof fn confidences_have_their_words(label: Seq<char>, value: Seq<char>, bytes: u8)
    ensures
        value == "confirmed"@ ==> confidence_of(label, value) == Ok::<
            EepromFieldConfidence,
            SpecErrorView,
        >(EepromFieldConfidence::Confirmed),
        value == "strongly-related"@ ==> confidence_of(label, value) == Ok::<
            EepromFieldConfidence,
            SpecErrorView,
        >(EepromFieldConfidence::StronglyRelated),
        value == "related-unknown"@ ==> confidence_of(label, value) == Ok::<
            EepromFieldConfidence,
            SpecErrorView,
        >(EepromFieldConfidence::RelatedUnknown),
        value != "confirmed"@ && value != "strongly-related"@ && value != "related-unknown"@
            ==> confidence_of(label, value) is Err,
        bytes == 1 ==> width_of(label, bytes) == Ok::<AddressWidth, SpecErrorView>(
            AddressWidth::One,
        ),
        bytes == 2 ==> width_of(label, bytes) == Ok::<AddressWidth, SpecErrorView>(
            AddressWidth::Two,
        ),
        bytes != 1 && bytes != 2 ==> width_of(label, bytes) is Err,
{
    reveal_strlit("confirmed");
    reveal_strlit("strongly-related");
    reveal_strlit("related-unknown");
    assert("confirmed"@.len() == 9);
    assert("strongly-related"@.len() == 16);
    assert("related-unknown"@.len() == 15);
}

/// What is known of the settings of a model is what they hold, operation by operation and
/// field by field.
pub proof fn settings_stand_in_order(settings: EpsonSpec, index: int)
    ensures
        settings@.memory_operations.len() == settings.memory_operations@.len(),
        settings@.read_only_fields.len() == settings.read_only_fields@.len(),
        settings@.memory_low == settings.memory_low,
        settings@.memory_high == settings.memory_high,
        settings@.read_key == settings.read_key,
        settings@.read_address_width == settings.read_address_width,
        settings@.write_address_width == settings.write_address_width,
        settings.write_key matches Some(key) ==> settings@.write_key == Some(key@),
        settings.write_key is None ==> settings@.write_key is None,
        0 <= index < settings.memory_operations@.len() ==> {
            let operation = settings.memory_operations@[index];
            let known = settings@.memory_operations[index];
            &&& known.description == operation.description@
            &&& known.addresses == operation.addresses@
            &&& known.reset_values == operation.reset_values@
            &&& known.reset_values_declared == operation.reset_values_declared
            &&& known.minimum == operation.minimum
        },
        0 <= index < settings.read_only_fields@.len() ==> {
            let field = settings.read_only_fields@[index];
            let known = settings@.read_only_fields[index];
            &&& known.address == field.address
            &&& known.end_address == field.end_address
            &&& known.label == field.label@
            &&& known.encoding == field.encoding
            &&& known.sensitive == field.sensitive
        },
{
}

/// The words under which encodings and confidences are shown.
pub proof fn encodings_are_shown_by_their_words(
    encoding: EepromFieldEncoding,
    confidence: EepromFieldConfidence,
)
    ensures
        encoding_label(encoding) == (match encoding {
            EepromFieldEncoding::U8 => "u8"@,
            EepromFieldEncoding::U16Le => "little-endian u16"@,
            EepromFieldEncoding::U32Le => "little-endian u32"@,
            EepromFieldEncoding::Ascii => "ASCII"@,
            EepromFieldEncoding::RawBytes => "raw bytes"@,
        }),
        confidence_label(confidence) == (match confidence {
            EepromFieldConfidence::Confirmed => "Confirmed"@,
            EepromFieldConfidence::StronglyRelated => "Strongly related"@,
            EepromFieldConfidence::RelatedUnknown => "Related; role unknown"@,
        }),
{
}

} // verus!
