//! The database of Epson models, and the metadata it is made from.
use crate::epson::{
    confidence_of, confidences_have_their_words, encoding_label, encoding_length, encoding_of,
    encodings_have_their_words, field_views, operation_views, optional_bytes, optional_text,
    width_of, AddressWidth, EepromField, EepromFieldConfidence, EepromFieldEncoding, EpsonSpec,
    FieldView, MemoryOperation, OperationView, SpecError, SpecErrorView, SpecView,
};
use crate::identity::{detected_model_of, PrinterIdentity};
use crate::text::{characters, debug_quoted, debug_text, dec, dec_text, hex_lower, prefixed_hex};
use crate::text_map::{ascending, texts, TextMap};
use vstd::prelude::*;

verus! {

/// The model metadata as it is written down.
#[derive(Clone, Debug)]
pub struct RawDatabase {
    /// Groups of models that share their settings.
    pub epson: Vec<RawSpec>,
}

/// The settings of a group of models as they are written down.
#[derive(Clone, Debug)]
pub struct RawSpec {
    pub brand: Option<String>,
    pub vendor_id: Option<u16>,
    pub product_id: Option<u16>,
    pub rkey: u16,
    pub write_key: Option<String>,
    pub shifted_write_key: Option<String>,
    pub read_length: u8,
    pub write_length: u8,
    pub memory_low: u16,
    pub memory_high: u16,
    pub mem: Vec<RawMemoryOperation>,
    pub read_only_fields: Vec<RawEepromField>,
    pub models: Vec<String>,
}

/// A memory operation as it is written down.
#[derive(Clone, Debug)]
pub struct RawMemoryOperation {
    pub addr: Vec<u16>,
    pub desc: String,
    /// The reset values; none at all where they are not declared.
    pub reset: Vec<u8>,
    pub min: Option<u32>,
}

/// A read-only field as it is written down.
#[derive(Clone, Debug)]
pub struct RawEepromField {
    pub address: Option<u16>,
    /// First and last address.
    pub range: Option<(u16, u16)>,
    pub label: String,
    pub encoding: String,
    pub confidence: String,
    pub evidence: String,
    pub sensitive: bool,
}

/// The address width that holds where none is written down.
pub fn default_address_length() -> (length: u8)
    ensures
        length == 2,
{
    2
}

/// The highest address that holds where none is written down.
pub fn default_memory_high() -> (address: u16)
    ensures
        address == 0xff,
{
    0xff
}

/// The operation that its written form stands for.
pub open spec fn operation_of(raw: RawMemoryOperation) -> Result<OperationView, SpecErrorView> {
    if raw.addr@.len() == 0 {
        Err(SpecErrorView::EmptyMemoryOperation { description: raw.desc@ })
    } else if raw.reset@.len() != 0 && raw.reset@.len() != raw.addr@.len() {
        Err(
            SpecErrorView::ResetLengthMismatch {
                description: raw.desc@,
                addresses: raw.addr@.len(),
                reset_values: raw.reset@.len(),
            },
        )
    } else {
        Ok(
            OperationView {
                description: raw.desc@,
                addresses: raw.addr@,
                reset_values: raw.reset@,
                reset_values_declared: raw.reset@.len() != 0,
                minimum: raw.min,
            },
        )
    }
}

/// The operations that their written forms stand for, or the first error.
pub open spec fn operations_of(raws: Seq<RawMemoryOperation>) -> Result<
    Seq<OperationView>,
    SpecErrorView,
>
    decreases raws.len(),
{
    if raws.len() == 0 {
        Ok(seq![])
    } else {
        match operations_of(raws.drop_last()) {
            Err(error) => Err(error),
            Ok(operations) => match operation_of(raws.last()) {
                Err(error) => Err(error),
                Ok(operation) => Ok(operations.push(operation)),
            },
        }
    }
}

/// The first and last address of a field: a single address or an ascending
/// range, but not both.
pub open spec fn location_of(raw: RawEepromField) -> Result<(u16, u16), SpecErrorView> {
    match (raw.address, raw.range) {
        (Some(address), None) => Ok((address, address)),
        (None, Some(range)) => if range.0 <= range.1 {
            Ok(range)
        } else {
            Err(
                SpecErrorView::InvalidReadOnlyFieldRange {
                    label: raw.label@,
                    address: range.0,
                    end_address: range.1,
                },
            )
        },
        _ => Err(SpecErrorView::InvalidReadOnlyFieldLocation { label: raw.label@ }),
    }
}

/// The field that its written form stands for in a range of addresses.
pub open spec fn field_of(raw: RawEepromField, memory_low: u16, memory_high: u16) -> Result<
    FieldView,
    SpecErrorView,
> {
    match location_of(raw) {
        Err(error) => Err(error),
        Ok((address, end_address)) => if address < memory_low || end_address > memory_high {
            Err(
                SpecErrorView::ReadOnlyFieldOutsideMemoryRange {
                    label: raw.label@,
                    address,
                    end_address,
                    memory_low,
                    memory_high,
                },
            )
        } else {
            match encoding_of(raw.label@, raw.encoding@) {
                Err(error) => Err(error),
                Ok(encoding) => {
                    let byte_len = (end_address - address + 1) as nat;
                    if encoding_length(encoding) is Some && encoding_length(encoding)->0
                        != byte_len {
                        Err(
                            SpecErrorView::ReadOnlyFieldLengthMismatch {
                                label: raw.label@,
                                encoding,
                                byte_len,
                            },
                        )
                    } else {
                        match confidence_of(raw.label@, raw.confidence@) {
                            Err(error) => Err(error),
                            Ok(confidence) => Ok(
                                FieldView {
                                    address,
                                    end_address,
                                    label: raw.label@,
                                    encoding,
                                    confidence,
                                    evidence_note: raw.evidence@,
                                    sensitive: raw.sensitive,
                                },
                            ),
                        }
                    }
                },
            }
        },
    }
}

/// The fields that their written forms stand for, or the first error.
pub open spec fn fields_of(raws: Seq<RawEepromField>, memory_low: u16, memory_high: u16) -> Result<
    Seq<FieldView>,
    SpecErrorView,
>
    decreases raws.len(),
{
    if raws.len() == 0 {
        Ok(seq![])
    } else {
        match fields_of(raws.drop_last(), memory_low, memory_high) {
            Err(error) => Err(error),
            Ok(fields) => match field_of(raws.last(), memory_low, memory_high) {
                Err(error) => Err(error),
                Ok(field) => Ok(fields.push(field)),
            },
        }
    }
}

/// Two fields share an address.
pub open spec fn overlap(left: FieldView, right: FieldView) -> bool {
    left.address <= right.end_address && right.address <= left.end_address
}

/// The first of several fields that shares an address with a field.
pub open spec fn overlapped(fields: Seq<FieldView>, field: FieldView) -> Option<FieldView>
    decreases fields.len(),
{
    if fields.len() == 0 {
        None
    } else {
        match overlapped(fields.drop_last(), field) {
            Some(found) => Some(found),
            None => if overlap(fields.last(), field) {
                Some(fields.last())
            } else {
                None
            },
        }
    }
}

/// What is wrong with the places of several fields: the first field that shares
/// an address with one before it, and that one.
pub open spec fn overlap_error(fields: Seq<FieldView>) -> Option<SpecErrorView>
    decreases fields.len(),
{
    if fields.len() == 0 {
        None
    } else {
        match overlap_error(fields.drop_last()) {
            Some(error) => Some(error),
            None => match overlapped(fields.drop_last(), fields.last()) {
                Some(found) => Some(
                    SpecErrorView::OverlappingReadOnlyFields {
                        first: found.label,
                        second: fields.last().label,
                    },
                ),
                None => None,
            },
        }
    }
}

/// Every character fits in one byte.
pub open spec fn latin1(text: Seq<char>) -> bool {
    forall|i: int| 0 <= i < text.len() ==> #[trigger] text[i] <= '\u{ff}'
}

/// The bytes of a text with characters that fit in one byte.
pub open spec fn latin1_of(text: Seq<char>) -> Seq<u8> {
    Seq::new(text.len(), |i: int| text[i] as u8)
}

/// The write key that its written form stands for: eight Latin-1 characters.
pub open spec fn write_key_of(raw: Option<String>) -> Result<Option<Seq<u8>>, SpecErrorView> {
    match raw {
        None => Ok(None),
        Some(key) => if !latin1(key@) {
            Err(SpecErrorView::NonLatin1WriteKey)
        } else if key@.len() != 8 {
            Err(SpecErrorView::InvalidWriteKeyLength { length: key@.len() })
        } else {
            Ok(Some(latin1_of(key@)))
        },
    }
}

/// The settings of one model of a group, or what is wrong with the group.
pub open spec fn spec_of(raw: RawSpec, model: Seq<char>) -> Result<SpecView, SpecErrorView> {
    match (
        width_of("rlen"@, raw.read_length),
        width_of("wlen"@, raw.write_length),
        write_key_of(raw.write_key),
        operations_of(raw.mem@),
        fields_of(raw.read_only_fields@, raw.memory_low, raw.memory_high),
    ) {
        (Err(error), _, _, _, _) => Err(error),
        (_, Err(error), _, _, _) => Err(error),
        (Ok(read_width), Ok(write_width), write_key, operations, fields) => if raw.memory_low
            > raw.memory_high {
            Err(SpecErrorView::InvalidMemoryRange { low: raw.memory_low, high: raw.memory_high })
        } else {
            match (write_key, operations, fields) {
                (Err(error), _, _) => Err(error),
                (_, Err(error), _) => Err(error),
                (_, _, Err(error)) => Err(error),
                (Ok(write_key), Ok(operations), Ok(fields)) => match overlap_error(fields) {
                    Some(error) => Err(error),
                    None => Ok(
                        SpecView {
                            model,
                            brand: match raw.brand {
                                Some(brand) => brand@,
                                None => "EPSON"@,
                            },
                            vendor_id: match raw.vendor_id {
                                Some(id) => id,
                                None => 0x04b8,
                            },
                            product_id: raw.product_id,
                            read_key: raw.rkey,
                            write_key,
                            shifted_write_key: optional_text(raw.shifted_write_key),
                            read_address_width: read_width,
                            write_address_width: write_width,
                            memory_low: raw.memory_low,
                            memory_high: raw.memory_high,
                            memory_operations: operations,
                            read_only_fields: fields,
                        },
                    ),
                },
            }
        },
    }
}

/// The models of a group added to a database, each in place of an earlier one.
pub open spec fn with_models(
    models: Map<Seq<char>, SpecView>,
    raw: RawSpec,
    names: Seq<Seq<char>>,
) -> Map<Seq<char>, SpecView>
    decreases names.len(),
{
    if names.len() == 0 {
        models
    } else {
        with_models(models, raw, names.drop_last()).insert(
            names.last(),
            spec_of(raw, names.last())->Ok_0,
        )
    }
}

/// The database that its written form stands for, or the first error.
pub open spec fn database_of(raws: Seq<RawSpec>) -> Result<Map<Seq<char>, SpecView>, SpecErrorView>
    decreases raws.len(),
{
    if raws.len() == 0 {
        Ok(Map::empty())
    } else {
        match database_of(raws.drop_last()) {
            Err(error) => Err(error),
            Ok(models) => match spec_of(raws.last(), seq![]) {
                Err(error) => Err(error),
                Ok(_) => Ok(with_models(models, raws.last(), texts(raws.last().models@))),
            },
        }
    }
}

impl RawMemoryOperation {
    /// The operation that this written form stands for.
    pub fn to_operation(&self) -> (operation: Result<MemoryOperation, SpecError>)
        ensures
            match (operation, operation_of(*self)) {
                (Ok(operation), Ok(expected)) => operation@ == expected,
                (Err(error), Err(expected)) => error@ == expected,
                _ => false,
            },
    {
        if self.addr.len() == 0 {
            return Err(SpecError::EmptyMemoryOperation { description: self.desc.clone() });
        }
        if self.reset.len() != 0 && self.reset.len() != self.addr.len() {
            return Err(
                SpecError::ResetLengthMismatch {
                    description: self.desc.clone(),
                    addresses: self.addr.len(),
                    reset_values: self.reset.len(),
                },
            );
        }
        Ok(
            MemoryOperation {
                description: self.desc.clone(),
                addresses: vstd::slice::slice_to_vec(self.addr.as_slice()),
                reset_values: vstd::slice::slice_to_vec(self.reset.as_slice()),
                reset_values_declared: self.reset.len() != 0,
                minimum: self.min,
            },
        )
    }
}

impl RawEepromField {
    fn location(&self) -> (location: Result<(u16, u16), SpecError>)
        ensures
            match (location, location_of(*self)) {
                (Ok(location), Ok(expected)) => location == expected,
                (Err(error), Err(expected)) => error@ == expected,
                _ => false,
            },
    {
        match (self.address, self.range) {
            (Some(address), None) => Ok((address, address)),
            (None, Some(range)) => if range.0 <= range.1 {
                Ok(range)
            } else {
                Err(
                    SpecError::InvalidReadOnlyFieldRange {
                        label: self.label.clone(),
                        address: range.0,
                        end_address: range.1,
                    },
                )
            },
            _ => Err(SpecError::InvalidReadOnlyFieldLocation { label: self.label.clone() }),
        }
    }

    /// The field that this written form stands for in a range of addresses.
    pub fn to_eeprom_field(&self, memory_low: u16, memory_high: u16) -> (field: Result<
        EepromField,
        SpecError,
    >)
        ensures
            match (field, field_of(*self, memory_low, memory_high)) {
                (Ok(field), Ok(expected)) => field@ == expected,
                (Err(error), Err(expected)) => error@ == expected,
                _ => false,
            },
    {
        let (address, end_address): (u16, u16) = match self.location() {
            Ok(location) => location,
            Err(error) => return Err(error),
        };
        if address < memory_low || end_address > memory_high {
            return Err(
                SpecError::ReadOnlyFieldOutsideMemoryRange {
                    label: self.label.clone(),
                    address,
                    end_address,
                    memory_low,
                    memory_high,
                },
            );
        }
        let encoding = match EepromFieldEncoding::from_raw(
            self.label.as_str(),
            self.encoding.as_str(),
        ) {
            Ok(encoding) => encoding,
            Err(error) => return Err(error),
        };
        let byte_len: usize = end_address as usize - address as usize + 1;
        if let Some(expected_len) = encoding.fixed_byte_len() {
            if byte_len != expected_len {
                return Err(
                    SpecError::ReadOnlyFieldLengthMismatch {
                        label: self.label.clone(),
                        encoding,
                        byte_len,
                    },
                );
            }
        }
        let confidence = match EepromFieldConfidence::from_raw(
            self.label.as_str(),
            self.confidence.as_str(),
        ) {
            Ok(confidence) => confidence,
            Err(error) => return Err(error),
        };
        Ok(
            EepromField {
                address,
                end_address,
                label: self.label.clone(),
                encoding,
                confidence,
                evidence_note: self.evidence.clone(),
                sensitive: self.sensitive,
            },
        )
    }
}

fn to_operations(raws: &Vec<RawMemoryOperation>) -> (operations: Result<
    Vec<MemoryOperation>,
    SpecError,
>)
    ensures
        match (operations, operations_of(raws@)) {
            (Ok(operations), Ok(expected)) => operation_views(operations@) == expected,
            (Err(error), Err(expected)) => error@ == expected,
            _ => false,
        },
{
    let mut operations: Vec<MemoryOperation> = Vec::new();
    let mut index: usize = 0;
    proof {
        assert(raws@.take(0) =~= seq![]);
        assert(operation_views(operations@) =~= seq![]);
    }
    while index < raws.len()
        invariant
            index <= raws@.len(),
            operations_of(raws@.take(index as int)) == Ok::<Seq<OperationView>, SpecErrorView>(
                operation_views(operations@),
            ),
        decreases raws.len() - index,
    {
        let ghost longer = raws@.take(index + 1);
        proof {
            assert(longer.drop_last() =~= raws@.take(index as int));
            assert(longer.last() == raws@[index as int]);
        }
        match raws[index].to_operation() {
            Ok(operation) => {
                let ghost before = operations@;
                operations.push(operation);
                proof {
                    assert(operation_views(operations@) =~= operation_views(before).push(
                        operation@,
                    ));
                }
            },
            Err(error) => {
                proof {
                    lemma_first_operation_error(raws@, index + 1);
                }
                return Err(error);
            },
        }
        index = index + 1;
    }
    proof {
        assert(raws@.take(index as int) =~= raws@);
    }
    Ok(operations)
}

proof fn lemma_first_operation_error(raws: Seq<RawMemoryOperation>, length: int)
    requires
        0 <= length <= raws.len(),
        operations_of(raws.take(length)) is Err,
    ensures
        operations_of(raws) == operations_of(raws.take(length)),
    decreases raws.len(),
{
    if length == raws.len() {
        assert(raws.take(length) =~= raws);
    } else {
        assert(raws.drop_last().take(length) =~= raws.take(length));
        lemma_first_operation_error(raws.drop_last(), length);
    }
}

fn to_fields(raws: &Vec<RawEepromField>, memory_low: u16, memory_high: u16) -> (fields: Result<
    Vec<EepromField>,
    SpecError,
>)
    ensures
        match (fields, fields_of(raws@, memory_low, memory_high)) {
            (Ok(fields), Ok(expected)) => field_views(fields@) == expected,
            (Err(error), Err(expected)) => error@ == expected,
            _ => false,
        },
{
    let mut fields: Vec<EepromField> = Vec::new();
    let mut index: usize = 0;
    proof {
        assert(raws@.take(0) =~= seq![]);
        assert(field_views(fields@) =~= seq![]);
    }
    while index < raws.len()
        invariant
            index <= raws@.len(),
            fields_of(raws@.take(index as int), memory_low, memory_high) == Ok::<
                Seq<FieldView>,
                SpecErrorView,
            >(field_views(fields@)),
        decreases raws.len() - index,
    {
        let ghost longer = raws@.take(index + 1);
        proof {
            assert(longer.drop_last() =~= raws@.take(index as int));
            assert(longer.last() == raws@[index as int]);
        }
        match raws[index].to_eeprom_field(memory_low, memory_high) {
            Ok(field) => {
                let ghost before = fields@;
                fields.push(field);
                proof {
                    assert(field_views(fields@) =~= field_views(before).push(field@));
                }
            },
            Err(error) => {
                proof {
                    lemma_first_field_error(raws@, memory_low, memory_high, index + 1);
                }
                return Err(error);
            },
        }
        index = index + 1;
    }
    proof {
        assert(raws@.take(index as int) =~= raws@);
    }
    Ok(fields)
}

proof fn lemma_first_field_error(
    raws: Seq<RawEepromField>,
    memory_low: u16,
    memory_high: u16,
    length: int,
)
    requires
        0 <= length <= raws.len(),
        fields_of(raws.take(length), memory_low, memory_high) is Err,
    ensures
        fields_of(raws, memory_low, memory_high) == fields_of(
            raws.take(length),
            memory_low,
            memory_high,
        ),
    decreases raws.len(),
{
    if length == raws.len() {
        assert(raws.take(length) =~= raws);
    } else {
        assert(raws.drop_last().take(length) =~= raws.take(length));
        lemma_first_field_error(raws.drop_last(), memory_low, memory_high, length);
    }
}

proof fn lemma_first_overlapped(fields: Seq<FieldView>, field: FieldView, length: int)
    requires
        0 <= length <= fields.len(),
        overlapped(fields.take(length), field) is Some,
    ensures
        overlapped(fields, field) == overlapped(fields.take(length), field),
    decreases fields.len(),
{
    if length == fields.len() {
        assert(fields.take(length) =~= fields);
    } else {
        assert(fields.drop_last().take(length) =~= fields.take(length));
        lemma_first_overlapped(fields.drop_last(), field, length);
    }
}

proof fn lemma_first_overlap_error(fields: Seq<FieldView>, length: int)
    requires
        0 <= length <= fields.len(),
        overlap_error(fields.take(length)) is Some,
    ensures
        overlap_error(fields) == overlap_error(fields.take(length)),
    decreases fields.len(),
{
    if length == fields.len() {
        assert(fields.take(length) =~= fields);
    } else {
        assert(fields.drop_last().take(length) =~= fields.take(length));
        lemma_first_overlap_error(fields.drop_last(), length);
    }
}

/// Checks that no two fields share an address.
pub fn validate_read_only_fields(fields: &[EepromField]) -> (valid: Result<(), SpecError>)
    ensures
        match (valid, overlap_error(field_views(fields@))) {
            (Ok(_), None) => true,
            (Err(error), Some(expected)) => error@ == expected,
            _ => false,
        },
{
    let ghost views = field_views(fields@);
    let mut index: usize = 0;
    proof {
        assert(views.take(0) =~= seq![]);
    }
    while index < fields.len()
        invariant
            index <= fields@.len(),
            views == field_views(fields@),
            overlap_error(views.take(index as int)) is None,
        decreases fields.len() - index,
    {
        let field = &fields[index];
        let ghost earlier = views.take(index as int);
        let mut other: usize = 0;
        proof {
            assert(views.take(index + 1).drop_last() =~= earlier);
            assert(earlier.take(0) =~= seq![]);
        }
        while other < index
            invariant
                other <= index < fields@.len(),
                views == field_views(fields@),
                earlier == views.take(index as int),
                views.take(index + 1).drop_last() == earlier,
                overlap_error(earlier) is None,
                field@ == views[index as int],
                overlapped(earlier.take(other as int), field@) is None,
            decreases index - other,
        {
            let candidate = &fields[other];
            proof {
                assert(earlier.take(other + 1).drop_last() =~= earlier.take(other as int));
                assert(earlier.take(other + 1).last() == candidate@);
            }
            if field.address <= candidate.end_address && candidate.address <= field.end_address {
                proof {
                    lemma_first_overlapped(earlier, field@, other + 1);
                    assert(views.take(index + 1).last() == field@);
                    lemma_first_overlap_error(views, index + 1);
                }
                return Err(
                    SpecError::OverlappingReadOnlyFields {
                        first: candidate.label.clone(),
                        second: field.label.clone(),
                    },
                );
            }
            other = other + 1;
        }
        proof {
            assert(earlier.take(other as int) =~= earlier);
        }
        index = index + 1;
    }
    proof {
        assert(views.take(index as int) =~= views);
    }
    Ok(())
}

/// The bytes of a text with characters that fit in one byte.
fn latin1_bytes(value: &str) -> (bytes: Result<Vec<u8>, SpecError>)
    ensures
        match bytes {
            Ok(bytes) => latin1(value@) && bytes@ == latin1_of(value@),
            Err(error) => !latin1(value@) && error@ == SpecErrorView::NonLatin1WriteKey,
        },
{
    let chars = characters(value);
    let mut bytes: Vec<u8> = Vec::new();
    let mut index: usize = 0;
    while index < chars.len()
        invariant
            index <= chars@.len(),
            chars@ == value@,
            bytes@ == latin1_of(value@.take(index as int)),
            forall|i: int| 0 <= i < index ==> #[trigger] value@[i] <= '\u{ff}',
        decreases chars.len() - index,
    {
        let character: char = chars[index];
        if character > '\u{ff}' {
            return Err(SpecError::NonLatin1WriteKey);
        }
        bytes.push(character as u8);
        proof {
            assert(bytes@ =~= latin1_of(value@.take(index + 1)));
        }
        index = index + 1;
    }
    proof {
        assert(value@.take(index as int) =~= value@);
    }
    Ok(bytes)
}

fn to_write_key(raw: &Option<String>) -> (key: Result<Option<Vec<u8>>, SpecError>)
    ensures
        match (key, write_key_of(*raw)) {
            (Ok(key), Ok(expected)) => optional_bytes(key) == expected,
            (Err(error), Err(expected)) => error@ == expected,
            _ => false,
        },
{
    match raw {
        None => Ok(None),
        Some(text) => match latin1_bytes(text.as_str()) {
            Err(error) => Err(error),
            Ok(bytes) => if bytes.len() != 8 {
                Err(SpecError::InvalidWriteKeyLength { length: bytes.len() })
            } else {
                Ok(Some(bytes))
            },
        },
    }
}

fn duplicate_operations(operations: &Vec<MemoryOperation>) -> (copy: Vec<MemoryOperation>)
    ensures
        operation_views(copy@) == operation_views(operations@),
{
    let mut copy: Vec<MemoryOperation> = Vec::new();
    let mut index: usize = 0;
    while index < operations.len()
        invariant
            index <= operations@.len(),
            operation_views(copy@) == operation_views(operations@).take(index as int),
        decreases operations.len() - index,
    {
        let ghost before = copy@;
        copy.push(operations[index].duplicate());
        proof {
            assert(operation_views(copy@) =~= operation_views(before).push(
                operations@[index as int]@,
            ));
            assert(operation_views(operations@).take(index + 1) =~= operation_views(
                operations@,
            ).take(index as int).push(operations@[index as int]@));
        }
        index = index + 1;
    }
    proof {
        assert(operation_views(operations@).take(index as int) =~= operation_views(operations@));
    }
    copy
}

fn duplicate_fields(fields: &Vec<EepromField>) -> (copy: Vec<EepromField>)
    ensures
        field_views(copy@) == field_views(fields@),
{
    let mut copy: Vec<EepromField> = Vec::new();
    let mut index: usize = 0;
    while index < fields.len()
        invariant
            index <= fields@.len(),
            field_views(copy@) == field_views(fields@).take(index as int),
        decreases fields.len() - index,
    {
        let ghost before = copy@;
        copy.push(fields[index].duplicate());
        proof {
            assert(field_views(copy@) =~= field_views(before).push(fields@[index as int]@));
            assert(field_views(fields@).take(index + 1) =~= field_views(fields@).take(
                index as int,
            ).push(fields@[index as int]@));
        }
        index = index + 1;
    }
    proof {
        assert(field_views(fields@).take(index as int) =~= field_views(fields@));
    }
    copy
}

fn duplicate_key(key: &Option<Vec<u8>>) -> (copy: Option<Vec<u8>>)
    ensures
        optional_bytes(copy) == optional_bytes(*key),
{
    match key {
        None => None,
        Some(bytes) => Some(vstd::slice::slice_to_vec(bytes.as_slice())),
    }
}

fn duplicate_text(text: &Option<String>) -> (copy: Option<String>)
    ensures
        optional_text(copy) == optional_text(*text),
{
    match text {
        None => None,
        Some(text) => Some(text.clone()),
    }
}

impl EpsonSpec {
    /// The settings of another model with the same contents.
    pub fn renamed(&self, model: String) -> (copy: Self)
        ensures
            copy@ == (SpecView { model: model@, ..self@ }),
    {
        EpsonSpec {
            model,
            brand: self.brand.clone(),
            vendor_id: self.vendor_id,
            product_id: self.product_id,
            read_key: self.read_key,
            write_key: duplicate_key(&self.write_key),
            shifted_write_key: duplicate_text(&self.shifted_write_key),
            read_address_width: self.read_address_width,
            write_address_width: self.write_address_width,
            memory_low: self.memory_low,
            memory_high: self.memory_high,
            memory_operations: duplicate_operations(&self.memory_operations),
            read_only_fields: duplicate_fields(&self.read_only_fields),
        }
    }

    /// A copy with the same contents.
    pub fn duplicate(&self) -> (copy: Self)
        ensures
            copy@ == self@,
    {
        self.renamed(self.model.clone())
    }
}

impl RawSpec {
    /// The settings that this written form stands for, for a model yet to be named.
    pub fn to_spec(&self) -> (result: Result<EpsonSpec, SpecError>)
        ensures
            match (result, spec_of(*self, seq![])) {
                (Ok(result), Ok(expected)) => result@ == expected,
                (Err(error), Err(expected)) => error@ == expected,
                _ => false,
            },
    {
        let read_address_width = match AddressWidth::from_raw("rlen", self.read_length) {
            Ok(width) => width,
            Err(error) => return Err(error),
        };
        let write_address_width = match AddressWidth::from_raw("wlen", self.write_length) {
            Ok(width) => width,
            Err(error) => return Err(error),
        };
        if self.memory_low > self.memory_high {
            return Err(
                SpecError::InvalidMemoryRange { low: self.memory_low, high: self.memory_high },
            );
        }
        let write_key = match to_write_key(&self.write_key) {
            Ok(key) => key,
            Err(error) => return Err(error),
        };
        let memory_operations = match to_operations(&self.mem) {
            Ok(operations) => operations,
            Err(error) => return Err(error),
        };
        let read_only_fields = match to_fields(
            &self.read_only_fields,
            self.memory_low,
            self.memory_high,
        ) {
            Ok(fields) => fields,
            Err(error) => return Err(error),
        };
        if let Err(error) = validate_read_only_fields(read_only_fields.as_slice()) {
            return Err(error);
        }
        Ok(
            EpsonSpec {
                model: String::new(),
                brand: match &self.brand {
                    Some(brand) => brand.clone(),
                    None => String::from_str("EPSON"),
                },
                vendor_id: match self.vendor_id {
                    Some(id) => id,
                    None => 0x04b8,
                },
                product_id: self.product_id,
                read_key: self.rkey,
                write_key,
                shifted_write_key: duplicate_text(&self.shifted_write_key),
                read_address_width,
                write_address_width,
                memory_low: self.memory_low,
                memory_high: self.memory_high,
                memory_operations,
                read_only_fields,
            },
        )
    }
}

/// Epson specifications indexed by the exact advertised model name.
#[derive(Clone, Debug)]
pub struct ModelDatabase {
    models: TextMap<EpsonSpec>,
}

impl View for ModelDatabase {
    type V = Map<Seq<char>, SpecView>;

    closed spec fn view(&self) -> Map<Seq<char>, SpecView> {
        self.models@.map_values(|model: EpsonSpec| model@)
    }
}

impl Default for ModelDatabase {
    fn default() -> (database: Self)
        ensures
            database@ == Map::<Seq<char>, SpecView>::empty(),
            database.well_formed(),
    {
        let database = ModelDatabase { models: TextMap::new() };
        proof {
            assert(database@ =~= Map::<Seq<char>, SpecView>::empty());
        }
        database
    }
}

impl ModelDatabase {
    /// Each model is listed once, in the order of the names.
    pub closed spec fn well_formed(&self) -> bool {
        self.models.well_formed()
    }

    /// Builds the database from the metadata as it is written down. A model that
    /// is named again later replaces the earlier one.
    pub fn from_raw(raw: &RawDatabase) -> (database: Result<Self, SpecError>)
        ensures
            match (database, database_of(raw.epson@)) {
                (Ok(database), Ok(expected)) => database@ == expected && database.well_formed()
                    && valid_models(database@),
                (Err(error), Err(expected)) => error@ == expected,
                _ => false,
            },
    {
        let mut database = ModelDatabase { models: TextMap::new() };
        let ghost groups = raw.epson@;
        let mut index: usize = 0;
        proof {
            assert(groups.take(0) =~= seq![]);
            assert(database@ =~= Map::empty());
        }
        while index < raw.epson.len()
            invariant
                index <= raw.epson@.len(),
                groups == raw.epson@,
                database.well_formed(),
                database_of(groups.take(index as int)) == Ok::<
                    Map<Seq<char>, SpecView>,
                    SpecErrorView,
                >(database@),
            decreases raw.epson.len() - index,
        {
            let group = &raw.epson[index];
            let ghost longer = groups.take(index + 1);
            proof {
                assert(longer.drop_last() =~= groups.take(index as int));
                assert(longer.last() == *group);
            }
            match group.to_spec() {
                Err(error) => {
                    proof {
                        lemma_first_group_error(groups, index + 1);
                    }
                    return Err(error);
                },
                Ok(settings) => {
                    database.add_models(group, &settings);
                },
            }
            index = index + 1;
        }
        proof {
            assert(groups.take(index as int) =~= groups);
            accepted_databases_are_valid(groups);
        }
        Ok(database)
    }

    fn add_models(&mut self, group: &RawSpec, settings: &EpsonSpec)
        requires
            old(self).well_formed(),
            spec_of(*group, seq![]) == Ok::<SpecView, SpecErrorView>(settings@),
        ensures
            final(self).well_formed(),
            final(self)@ == with_models(old(self)@, *group, texts(group.models@)),
    {
        let ghost names = texts(group.models@);
        let mut index: usize = 0;
        proof {
            assert(names.take(0) =~= seq![]);
        }
        while index < group.models.len()
            invariant
                index <= group.models@.len(),
                names == texts(group.models@),
                spec_of(*group, seq![]) == Ok::<SpecView, SpecErrorView>(settings@),
                self.well_formed(),
                self@ == with_models(old(self)@, *group, names.take(index as int)),
            decreases group.models.len() - index,
        {
            let ghost before = self@;
            let renamed = settings.renamed(group.models[index].clone());
            self.models.insert(group.models[index].clone(), renamed);
            proof {
                let longer = names.take(index + 1);
                let name = group.models@[index as int]@;
                assert(longer.drop_last() =~= names.take(index as int));
                assert(longer.last() == name);
                assert(spec_of(*group, name)->Ok_0 == renamed@);
                assert(self@ =~= before.insert(name, renamed@));
            }
            index = index + 1;
        }
        proof {
            assert(names.take(index as int) =~= names);
        }
    }

    /// The settings of a model.
    pub fn get(&self, model: &str) -> (found: Option<&EpsonSpec>)
        requires
            self.well_formed(),
        ensures
            match found {
                Some(found) => self@.contains_key(model@) && found@ == self@[model@],
                None => !self@.contains_key(model@),
            },
    {
        self.models.get(model)
    }

    /// Resolves a database specification from a normalized IEEE 1284 identity.
    pub fn resolve_identity(&self, identity: &PrinterIdentity) -> (found: Option<&EpsonSpec>)
        requires
            self.well_formed(),
            identity.well_formed(),
        ensures
            match (found, detected_model_of(identity@)) {
                (Some(found), Some(model)) => self@.contains_key(model) && found@ == self@[model],
                (None, Some(model)) => !self@.contains_key(model),
                (None, None) => true,
                (Some(_), None) => false,
            },
    {
        match identity.detected_model() {
            Some(model) => self.get(model.as_str()),
            None => None,
        }
    }

    /// The names of all models, in ascending order.
    pub fn models(&self) -> (names: Vec<String>)
        requires
            self.well_formed(),
        ensures
            ascending(texts(names@)),
            forall|name: Seq<char>| #[trigger]
                texts(names@).contains(name) <==> self@.contains_key(name),
    {
        proof {
            self.models.lemma_keys();
        }
        self.models.keys()
    }
}

proof fn lemma_first_group_error(raws: Seq<RawSpec>, length: int)
    requires
        0 <= length <= raws.len(),
        database_of(raws.take(length)) is Err,
    ensures
        database_of(raws) == database_of(raws.take(length)),
    decreases raws.len(),
{
    if length == raws.len() {
        assert(raws.take(length) =~= raws);
    } else {
        assert(raws.drop_last().take(length) =~= raws.take(length));
        lemma_first_group_error(raws.drop_last(), length);
    }
}

/// The words for a metadata error.
pub open spec fn spec_error_text(error: SpecErrorView) -> Seq<char> {
    match error {
        SpecErrorView::Toml { message } => "invalid Epson TOML: "@ + message,
        SpecErrorView::InvalidAddressWidth { field, value } => field
            + " must be one or two bytes, got "@ + dec_text(value as nat),
        SpecErrorView::InvalidMemoryRange { low, high } => "invalid EEPROM range "@ + prefixed_hex(
            low as nat,
            4,
        ) + "..="@ + prefixed_hex(high as nat, 4),
        SpecErrorView::InvalidWriteKeyLength { length } => "write key must be 8 bytes, got "@
            + dec_text(length),
        SpecErrorView::NonLatin1WriteKey => "write key is not Latin-1"@,
        SpecErrorView::EmptyMemoryOperation { description } => "memory operation "@ + debug_quoted(
            description,
        ) + " has no addresses"@,
        SpecErrorView::ResetLengthMismatch { description, addresses, reset_values } =>
            "memory operation "@ + debug_quoted(description) + " has "@ + dec_text(addresses)
            + " addresses but "@ + dec_text(reset_values) + " reset values"@,
        SpecErrorView::InvalidReadOnlyFieldLocation { label } => "read-only EEPROM field "@
            + debug_quoted(label) + " must declare exactly one address or range"@,
        SpecErrorView::InvalidReadOnlyFieldRange { label, address, end_address } =>
            "read-only EEPROM field "@ + debug_quoted(label) + " has invalid range "@
            + prefixed_hex(address as nat, 4) + "..="@ + prefixed_hex(end_address as nat, 4),
        SpecErrorView::ReadOnlyFieldOutsideMemoryRange {
            label,
            address,
            end_address,
            memory_low,
            memory_high,
        } => "read-only EEPROM field "@ + debug_quoted(label) + " range "@ + prefixed_hex(
            address as nat,
            4,
        ) + "..="@ + prefixed_hex(end_address as nat, 4) + " is outside "@ + prefixed_hex(
            memory_low as nat,
            4,
        ) + "..="@ + prefixed_hex(memory_high as nat, 4),
        SpecErrorView::InvalidReadOnlyFieldEncoding { label, encoding } =>
            "read-only EEPROM field "@ + debug_quoted(label) + " has unsupported encoding "@
            + debug_quoted(encoding),
        SpecErrorView::InvalidReadOnlyFieldConfidence { label, confidence } =>
            "read-only EEPROM field "@ + debug_quoted(label) + " has unsupported confidence "@
            + debug_quoted(confidence),
        SpecErrorView::ReadOnlyFieldLengthMismatch { label, encoding, byte_len } =>
            "read-only EEPROM field "@ + debug_quoted(label) + " has "@ + dec_text(byte_len)
            + " byte(s), but "@ + encoding_label(encoding) + " requires "@ + dec_text(
            match encoding_length(encoding) {
                Some(length) => length as nat,
                None => 0,
            },
        ),
        SpecErrorView::OverlappingReadOnlyFields { first, second } => "read-only EEPROM fields "@
            + debug_quoted(first) + " and "@ + debug_quoted(second) + " overlap"@,
    }
}

impl SpecError {
    /// Describes the error.
    pub fn message(&self) -> (text: String)
        ensures
            text@ == spec_error_text(self@),
    {
        match self {
            SpecError::Toml { message } => String::from_str("invalid Epson TOML: ").concat(
                message.as_str(),
            ),
            SpecError::InvalidAddressWidth { field, value } => String::from_str(field).concat(
                " must be one or two bytes, got ",
            ).concat(dec(*value as u64).as_str()),
            SpecError::InvalidMemoryRange { low, high } => String::from_str(
                "invalid EEPROM range ",
            ).concat(hex_lower(*low as u64, 4).as_str()).concat("..=").concat(
                hex_lower(*high as u64, 4).as_str(),
            ),
            SpecError::InvalidWriteKeyLength { length } => String::from_str(
                "write key must be 8 bytes, got ",
            ).concat(dec(*length as u64).as_str()),
            SpecError::NonLatin1WriteKey => String::from_str("write key is not Latin-1"),
            SpecError::EmptyMemoryOperation { description } => String::from_str(
                "memory operation ",
            ).concat(debug_text(description.as_str()).as_str()).concat(" has no addresses"),
            SpecError::ResetLengthMismatch { description, addresses, reset_values } =>
                String::from_str("memory operation ").concat(
                debug_text(description.as_str()).as_str(),
            ).concat(" has ").concat(dec(*addresses as u64).as_str()).concat(
                " addresses but ",
            ).concat(dec(*reset_values as u64).as_str()).concat(" reset values"),
            SpecError::InvalidReadOnlyFieldLocation { label } => String::from_str(
                "read-only EEPROM field ",
            ).concat(debug_text(label.as_str()).as_str()).concat(
                " must declare exactly one address or range",
            ),
            SpecError::InvalidReadOnlyFieldRange { label, address, end_address } =>
                String::from_str("read-only EEPROM field ").concat(
                debug_text(label.as_str()).as_str(),
            ).concat(" has invalid range ").concat(hex_lower(*address as u64, 4).as_str()).concat(
                "..=",
            ).concat(hex_lower(*end_address as u64, 4).as_str()),
            SpecError::ReadOnlyFieldOutsideMemoryRange {
                label,
                address,
                end_address,
                memory_low,
                memory_high,
            } => String::from_str("read-only EEPROM field ").concat(
                debug_text(label.as_str()).as_str(),
            ).concat(" range ").concat(hex_lower(*address as u64, 4).as_str()).concat(
                "..=",
            ).concat(hex_lower(*end_address as u64, 4).as_str()).concat(" is outside ").concat(
                hex_lower(*memory_low as u64, 4).as_str(),
            ).concat("..=").concat(hex_lower(*memory_high as u64, 4).as_str()),
            SpecError::InvalidReadOnlyFieldEncoding { label, encoding } => String::from_str(
                "read-only EEPROM field ",
            ).concat(debug_text(label.as_str()).as_str()).concat(
                " has unsupported encoding ",
            ).concat(debug_text(encoding.as_str()).as_str()),
            SpecError::InvalidReadOnlyFieldConfidence { label, confidence } => String::from_str(
                "read-only EEPROM field ",
            ).concat(debug_text(label.as_str()).as_str()).concat(
                " has unsupported confidence ",
            ).concat(debug_text(confidence.as_str()).as_str()),
            SpecError::ReadOnlyFieldLengthMismatch { label, encoding, byte_len } => {
                let required: usize = match encoding.fixed_byte_len() {
                    Some(length) => length,
                    None => 0,
                };
                String::from_str("read-only EEPROM field ").concat(
                    debug_text(label.as_str()).as_str(),
                ).concat(" has ").concat(dec(*byte_len as u64).as_str()).concat(
                    " byte(s), but ",
                ).concat(encoding.label()).concat(" requires ").concat(
                    dec(required as u64).as_str(),
                )
            },
            SpecError::OverlappingReadOnlyFields { first, second } => String::from_str(
                "read-only EEPROM fields ",
            ).concat(debug_text(first.as_str()).as_str()).concat(" and ").concat(
                debug_text(second.as_str()).as_str(),
            ).concat(" overlap"),
        }
    }
}

/// What every accepted specification keeps to.
pub open spec fn valid_spec(spec_: SpecView) -> bool {
    &&& spec_.memory_low <= spec_.memory_high
    &&& spec_.write_key matches Some(key) ==> key.len() == 8
    &&& forall|i: int|
        0 <= i < spec_.memory_operations.len() ==> valid_operation(
            #[trigger] spec_.memory_operations[i],
        )
    &&& forall|i: int|
        0 <= i < spec_.read_only_fields.len() ==> valid_field(
            #[trigger] spec_.read_only_fields[i],
            spec_.memory_low,
            spec_.memory_high,
        )
    &&& forall|i: int, j: int|
        0 <= i < j < spec_.read_only_fields.len() ==> !overlap(
            #[trigger] spec_.read_only_fields[i],
            #[trigger] spec_.read_only_fields[j],
        )
}

/// Every model is listed under its own name, with settings that keep to what an
/// accepted specification does.
pub open spec fn valid_models(models: Map<Seq<char>, SpecView>) -> bool {
    forall|name: Seq<char>|
        models.contains_key(name) ==> valid_spec(#[trigger] models[name]) && models[name].model
            == name
}

/// An operation has addresses, and either a declared reset value for each or none.
pub open spec fn valid_operation(operation: OperationView) -> bool {
    &&& operation.addresses.len() > 0
    &&& operation.reset_values.len() == if operation.reset_values_declared {
        operation.addresses.len()
    } else {
        0
    }
}

/// A field lies in the range of the model and is as long as its encoding needs.
pub open spec fn valid_field(field: FieldView, memory_low: u16, memory_high: u16) -> bool {
    &&& memory_low <= field.address <= field.end_address <= memory_high
    &&& encoding_length(field.encoding) matches Some(length) ==> field.end_address - field.address
        + 1 == length
}

proof fn lemma_operations_valid(raws: Seq<RawMemoryOperation>)
    requires
        operations_of(raws) is Ok,
    ensures
        forall|i: int|
            0 <= i < operations_of(raws)->Ok_0.len() ==> valid_operation(
                #[trigger] operations_of(raws)->Ok_0[i],
            ),
    decreases raws.len(),
{
    if raws.len() > 0 {
        lemma_operations_valid(raws.drop_last());
    }
}

proof fn lemma_fields_valid(raws: Seq<RawEepromField>, memory_low: u16, memory_high: u16)
    requires
        fields_of(raws, memory_low, memory_high) is Ok,
    ensures
        forall|i: int|
            0 <= i < fields_of(raws, memory_low, memory_high)->Ok_0.len() ==> valid_field(
                #[trigger] fields_of(raws, memory_low, memory_high)->Ok_0[i],
                memory_low,
                memory_high,
            ),
    decreases raws.len(),
{
    if raws.len() > 0 {
        lemma_fields_valid(raws.drop_last(), memory_low, memory_high);
    }
}

proof fn lemma_not_overlapped(fields: Seq<FieldView>, field: FieldView)
    requires
        overlapped(fields, field) is None,
    ensures
        forall|i: int| 0 <= i < fields.len() ==> !overlap(#[trigger] fields[i], field),
    decreases fields.len(),
{
    if fields.len() > 0 {
        lemma_not_overlapped(fields.drop_last(), field);
        assert forall|i: int| 0 <= i < fields.len() implies
            !overlap(#[trigger] fields[i], field) by {
            if i < fields.len() - 1 {
                assert(!overlap(fields.drop_last()[i], field));
            }
        }
    }
}

proof fn lemma_no_overlap(fields: Seq<FieldView>)
    requires
        overlap_error(fields) is None,
    ensures
        forall|i: int, j: int|
            0 <= i < j < fields.len() ==> !overlap(#[trigger] fields[i], #[trigger] fields[j]),
    decreases fields.len(),
{
    if fields.len() > 0 {
        let shorter = fields.drop_last();
        lemma_no_overlap(shorter);
        lemma_not_overlapped(shorter, fields.last());
        assert forall|i: int, j: int| 0 <= i < j < fields.len() implies !overlap(
            #[trigger] fields[i],
            #[trigger] fields[j],
        ) by {
            if j < fields.len() - 1 {
                assert(!overlap(shorter[i], shorter[j]));
            } else {
                assert(!overlap(shorter[i], fields.last()));
            }
        }
    }
}

/// A group that is accepted gives settings that are safe to use: an ascending
/// address range, a write key of eight bytes if any, operations whose declared
/// values match their addresses, and disjoint read-only fields inside the range,
/// each as long as its encoding needs.
pub proof fn accepted_settings_are_valid(raw: RawSpec, model: Seq<char>)
    requires
        spec_of(raw, model) is Ok,
    ensures
        valid_spec(spec_of(raw, model)->Ok_0),
{
    lemma_operations_valid(raw.mem@);
    lemma_fields_valid(raw.read_only_fields@, raw.memory_low, raw.memory_high);
    lemma_no_overlap(
        fields_of(raw.read_only_fields@, raw.memory_low, raw.memory_high)->Ok_0,
    );
}

proof fn lemma_models_valid(
    models: Map<Seq<char>, SpecView>,
    raw: RawSpec,
    names: Seq<Seq<char>>,
)
    requires
        valid_models(models),
        spec_of(raw, seq![]) is Ok,
    ensures
        valid_models(with_models(models, raw, names)),
    decreases names.len(),
{
    if names.len() > 0 {
        lemma_models_valid(models, raw, names.drop_last());
        assert(spec_of(raw, names.last()) is Ok);
        accepted_settings_are_valid(raw, names.last());
        let shorter = with_models(models, raw, names.drop_last());
        let whole = with_models(models, raw, names);
        assert forall|name: Seq<char>| whole.contains_key(name) implies valid_spec(
            #[trigger] whole[name],
        ) && whole[name].model == name by {
            if name != names.last() {
                assert(whole[name] == shorter[name]);
            }
        }
    }
}

/// Every model of an accepted database is listed under its own name, with valid
/// settings.
pub proof fn accepted_databases_are_valid(raws: Seq<RawSpec>)
    requires
        database_of(raws) is Ok,
    ensures
        valid_models(database_of(raws)->Ok_0),
    decreases raws.len(),
{
    if raws.len() > 0 {
        accepted_databases_are_valid(raws.drop_last());
        lemma_models_valid(
            database_of(raws.drop_last())->Ok_0,
            raws.last(),
            texts(raws.last().models@),
        );
    }
}

/// A later group does not name a model.
pub open spec fn named_last_by(raws: Seq<RawSpec>, index: int, name: Seq<char>) -> bool {
    forall|later: int, place: int|
        index < later < raws.len() && 0 <= place < raws[later].models@.len()
            ==> (#[trigger] raws[later].models@[place])@ != name
}

proof fn lemma_with_models(
    models: Map<Seq<char>, SpecView>,
    raw: RawSpec,
    names: Seq<Seq<char>>,
    name: Seq<char>,
)
    ensures
        names.contains(name) ==> with_models(models, raw, names).contains_key(name) && with_models(
            models,
            raw,
            names,
        )[name] == spec_of(raw, name)->Ok_0,
        !names.contains(name) ==> with_models(models, raw, names).contains_key(name)
            == models.contains_key(name) && (models.contains_key(name) ==> with_models(
            models,
            raw,
            names,
        )[name] == models[name]),
    decreases names.len(),
{
    if names.len() > 0 {
        let front = names.drop_last();
        lemma_with_models(models, raw, front, name);
        if names.last() != name {
            if names.contains(name) {
                let i = choose|i: int| 0 <= i < names.len() && names[i] == name;
                assert(front[i] == name);
            } else {
                assert forall|i: int| 0 <= i < front.len() implies front[i] != name by {
                    assert(names[i] != name);
                }
            }
        } else {
            assert(names[names.len() - 1] == name);
        }
    }
}

proof fn lemma_named_last(raws: Seq<RawSpec>, index: int, place: int)
    requires
        database_of(raws) is Ok,
        0 <= index < raws.len(),
        0 <= place < raws[index].models@.len(),
        named_last_by(raws, index, raws[index].models@[place]@),
    ensures
        spec_of(raws[index], raws[index].models@[place]@) is Ok,
        database_of(raws)->Ok_0.contains_key(raws[index].models@[place]@),
        database_of(raws)->Ok_0[raws[index].models@[place]@] == spec_of(
            raws[index],
            raws[index].models@[place]@,
        )->Ok_0,
    decreases raws.len(),
{
    let name = raws[index].models@[place]@;
    let front = raws.drop_last();
    let last = raws.len() - 1;
    let names = texts(raws.last().models@);
    lemma_with_models(database_of(front)->Ok_0, raws.last(), names, name);
    if index == last {
        assert(spec_of(raws.last(), seq![]) is Ok);
        assert(names[place] == name);
        assert(names.contains(name));
    } else {
        assert(named_last_by(front, index, name)) by {
            assert forall|later: int, at: int|
                index < later < front.len() && 0 <= at < front[later].models@.len() implies (
            #[trigger] front[later].models@[at])@ != name by {
                assert(raws[later].models@[at]@ != name);
            }
        }
        lemma_named_last(front, index, place);
        assert(!names.contains(name)) by {
            if names.contains(name) {
                let at = choose|at: int| 0 <= at < names.len() && names[at] == name;
                assert(raws[last].models@[at]@ == name);
            }
        }
    }
}

proof fn lemma_operations(raws: Seq<RawMemoryOperation>)
    requires
        operations_of(raws) is Ok,
    ensures
        operations_of(raws)->Ok_0.len() == raws.len(),
        forall|i: int|
            0 <= i < raws.len() ==> operation_of(#[trigger] raws[i]) == Ok::<
                OperationView,
                SpecErrorView,
            >(operations_of(raws)->Ok_0[i]),
    decreases raws.len(),
{
    if raws.len() > 0 {
        let front = raws.drop_last();
        lemma_operations(front);
        assert forall|i: int| 0 <= i < raws.len() implies operation_of(#[trigger] raws[i]) == Ok::<
            OperationView,
            SpecErrorView,
        >(operations_of(raws)->Ok_0[i]) by {
            if i < raws.len() - 1 {
                assert(front[i] == raws[i]);
            }
        }
    }
}

proof fn lemma_fields(raws: Seq<RawEepromField>, low: u16, high: u16)
    requires
        fields_of(raws, low, high) is Ok,
    ensures
        fields_of(raws, low, high)->Ok_0.len() == raws.len(),
        forall|i: int|
            0 <= i < raws.len() ==> field_of(#[trigger] raws[i], low, high) == Ok::<
                FieldView,
                SpecErrorView,
            >(fields_of(raws, low, high)->Ok_0[i]),
    decreases raws.len(),
{
    if raws.len() > 0 {
        let front = raws.drop_last();
        lemma_fields(front, low, high);
        assert forall|i: int| 0 <= i < raws.len() implies field_of(#[trigger] raws[i], low, high)
            == Ok::<FieldView, SpecErrorView>(fields_of(raws, low, high)->Ok_0[i]) by {
            if i < raws.len() - 1 {
                assert(front[i] == raws[i]);
            }
        }
    }
}

proof fn lemma_one_byte(c: char)
    requires
        c as int <= 0xff,
    ensures
        c as u8 as int == c as int,
{
}

/// What a model has of what is written down for it, in the last group that names
/// it: every number, key and text as it stands there, the write key character by
/// character, and the defaults where nothing stands.
pub proof fn models_hold_what_is_written(
    raws: Seq<RawSpec>,
    index: int,
    place: int,
    settings: EpsonSpec,
)
    requires
        database_of(raws) is Ok,
        0 <= index < raws.len(),
        0 <= place < raws[index].models@.len(),
        named_last_by(raws, index, raws[index].models@[place]@),
        settings@ == database_of(raws)->Ok_0[raws[index].models@[place]@],
    ensures
        database_of(raws)->Ok_0.contains_key(raws[index].models@[place]@),
        ({
            let raw = raws[index];
            &&& settings.model@ == raw.models@[place]@
            &&& match raw.brand {
                Some(brand) => settings.brand@ == brand@,
                None => settings.brand@ == "EPSON"@,
            }
            &&& match raw.vendor_id {
                Some(id) => settings.vendor_id == id,
                None => settings.vendor_id == 0x04b8,
            }
            &&& settings.product_id == raw.product_id
            &&& settings.read_key == raw.rkey
            &&& match (raw.write_key, settings.write_key) {
                (None, None) => true,
                (Some(written), Some(key)) => {
                    &&& written@.len() == 8
                    &&& key@.len() == 8
                    &&& forall|i: int|
                        0 <= i < 8 ==> (#[trigger] key@[i]) as int == written@[i] as int
                },
                _ => false,
            }
            &&& match (raw.shifted_write_key, settings.shifted_write_key) {
                (None, None) => true,
                (Some(written), Some(key)) => key@ == written@,
                _ => false,
            }
            &&& raw.read_length == (if settings.read_address_width == AddressWidth::One {
                1int
            } else {
                2int
            })
            &&& raw.write_length == (if settings.write_address_width == AddressWidth::One {
                1int
            } else {
                2int
            })
            &&& settings.memory_low == raw.memory_low
            &&& settings.memory_high == raw.memory_high
            &&& raw.memory_low <= raw.memory_high
        }),
{
    let raw = raws[index];
    let name = raw.models@[place]@;
    lemma_named_last(raws, index, place);
    if let Some(written) = raw.write_key {
        let key = settings.write_key->Some_0;
        assert(settings@.write_key == Some(latin1_of(written@)));
        assert forall|i: int| 0 <= i < 8 implies
            (#[trigger] key@[i]) as int == written@[i] as int by {
            assert(written@[i] <= '\u{ff}');
            let c: char = written@[i];
            assert(c <= '\u{ff}');
            assert(c as int <= 0xff);
            lemma_one_byte(c);
            assert(key@[i] == latin1_of(written@)[i]);
        }
    }
}

/// What a model has of the operations and the read-only fields that are written
/// down for it: each of them, in their order, with all that stands there.
pub proof fn models_hold_their_operations_and_fields(
    raws: Seq<RawSpec>,
    index: int,
    place: int,
    settings: EpsonSpec,
)
    requires
        database_of(raws) is Ok,
        0 <= index < raws.len(),
        0 <= place < raws[index].models@.len(),
        named_last_by(raws, index, raws[index].models@[place]@),
        settings@ == database_of(raws)->Ok_0[raws[index].models@[place]@],
    ensures
        settings.memory_operations@.len() == raws[index].mem@.len(),
        forall|i: int|
            0 <= i < raws[index].mem@.len() ==> {
                let written = #[trigger] raws[index].mem@[i];
                let operation = settings.memory_operations@[i];
                &&& operation.description@ == written.desc@
                &&& operation.addresses@ == written.addr@
                &&& operation.addresses@.len() > 0
                &&& operation.reset_values@ == written.reset@
                &&& operation.reset_values_declared == (written.reset@.len() > 0)
                &&& written.reset@.len() > 0 ==> written.reset@.len() == written.addr@.len()
                &&& operation.minimum == written.min
            },
        settings.read_only_fields@.len() == raws[index].read_only_fields@.len(),
        forall|i: int|
            0 <= i < raws[index].read_only_fields@.len() ==> {
                let written = #[trigger] raws[index].read_only_fields@[i];
                let field = settings.read_only_fields@[i];
                &&& match (written.address, written.range) {
                    (Some(address), None) => field.address == address && field.end_address
                        == address,
                    (None, Some(range)) => field.address == range.0 && field.end_address == range.1,
                    _ => false,
                }
                &&& settings.memory_low <= field.address <= field.end_address
                    <= settings.memory_high
                &&& field.label@ == written.label@
                &&& field.evidence_note@ == written.evidence@
                &&& field.sensitive == written.sensitive
                &&& match field.encoding {
                    EepromFieldEncoding::U8 => written.encoding@ == "u8"@ && field.end_address
                        == field.address,
                    EepromFieldEncoding::U16Le => written.encoding@ == "u16le"@
                        && field.end_address == field.address + 1,
                    EepromFieldEncoding::U32Le => written.encoding@ == "u32le"@
                        && field.end_address == field.address + 3,
                    EepromFieldEncoding::Ascii => written.encoding@ == "ascii"@,
                    EepromFieldEncoding::RawBytes => written.encoding@ == "raw"@,
                }
                &&& match field.confidence {
                    EepromFieldConfidence::Confirmed => written.confidence@ == "confirmed"@,
                    EepromFieldConfidence::StronglyRelated => written.confidence@
                        == "strongly-related"@,
                    EepromFieldConfidence::RelatedUnknown => written.confidence@
                        == "related-unknown"@,
                }
            },
{
    let raw = raws[index];
    lemma_named_last(raws, index, place);
    lemma_operations(raw.mem@);
    lemma_fields(raw.read_only_fields@, raw.memory_low, raw.memory_high);
    assert(operation_views(settings.memory_operations@) == operations_of(raw.mem@)->Ok_0);
    assert(field_views(settings.read_only_fields@) == fields_of(
        raw.read_only_fields@,
        raw.memory_low,
        raw.memory_high,
    )->Ok_0);
    assert forall|i: int| 0 <= i < raw.mem@.len() implies settings.memory_operations@[i]@ == (
    operation_of(#[trigger] raw.mem@[i]))->Ok_0 by {
        assert(operation_views(settings.memory_operations@)[i]
            == settings.memory_operations@[i]@);
    }
    assert forall|i: int| 0 <= i < raw.read_only_fields@.len() implies
        settings.read_only_fields@[i]@
        == field_of(
        #[trigger] raw.read_only_fields@[i],
        raw.memory_low,
        raw.memory_high,
    )->Ok_0 by {
        assert(field_views(settings.read_only_fields@)[i] == settings.read_only_fields@[i]@);
    }
}

/// A database knows the models that some group names, and no other ones.
pub proof fn models_are_those_that_are_named(raws: Seq<RawSpec>, name: Seq<char>)
    requires
        database_of(raws) is Ok,
    ensures
        database_of(raws)->Ok_0.contains_key(name) <==> exists|index: int, place: int|
            0 <= index < raws.len() && 0 <= place < raws[index].models@.len() && (
            #[trigger] raws[index].models@[place])@ == name,
    decreases raws.len(),
{
    if raws.len() > 0 {
        let front = raws.drop_last();
        let names = texts(raws.last().models@);
        let last = raws.len() - 1;
        models_are_those_that_are_named(front, name);
        lemma_with_models(database_of(front)->Ok_0, raws.last(), names, name);
        if names.contains(name) {
            let place = choose|place: int| 0 <= place < names.len() && names[place] == name;
            assert(raws[last].models@[place]@ == name);
        } else if database_of(front)->Ok_0.contains_key(name) {
            let (index, place) = choose|index: int, place: int|
                0 <= index < front.len() && 0 <= place < front[index].models@.len() && (
                #[trigger] front[index].models@[place])@ == name;
            assert(raws[index].models@[place]@ == name);
        } else {
            assert forall|index: int, place: int|
                0 <= index < raws.len() && 0 <= place < raws[index].models@.len() implies (
            #[trigger] raws[index].models@[place])@ != name by {
                if index < last {
                    assert(front[index].models@[place]@ != name);
                } else {
                    assert(names[place] != name);
                }
            }
        }
    }
}

/// Which written forms of a write key, an operation and the widths are accepted.
pub proof fn written_forms_are_accepted(
    key: String,
    operation: RawMemoryOperation,
    length: u8,
    name: Seq<char>,
)
    ensures
        write_key_of(Some(key)) is Ok <==> key@.len() == 8 && (forall|i: int|
            0 <= i < key@.len() ==> (#[trigger] key@[i]) as int <= 0xff),
        write_key_of(None) == Ok::<Option<Seq<u8>>, SpecErrorView>(None),
        operation_of(operation) is Ok <==> operation.addr@.len() > 0 && (operation.reset@.len() == 0
            || operation.reset@.len() == operation.addr@.len()),
        width_of(name, length) is Ok <==> length == 1 || length == 2,
{
    if latin1(key@) {
        assert forall|i: int| 0 <= i < key@.len() implies (#[trigger] key@[i]) as int <= 0xff by {
            assert(key@[i] <= '\u{ff}');
        }
    } else {
        let i = choose|i: int| 0 <= i < key@.len() && !(#[trigger] key@[i] <= '\u{ff}');
        assert(key@[i] as int > 0xff);
    }
}

/// A written field is a proper one: it names an address or an ascending range, but not
/// both, within the range of the model, a known encoding for as many bytes, and a known
/// confidence.
pub open spec fn proper_field(raw: RawEepromField, memory_low: u16, memory_high: u16) -> bool {
    let (first, last): (int, int) = match (raw.address, raw.range) {
        (Some(address), _) => (address as int, address as int),
        (None, Some(range)) => (range.0 as int, range.1 as int),
        (None, None) => (1, 0),
    };
    &&& raw.address is Some <==> raw.range is None
    &&& memory_low <= first <= last <= memory_high
    &&& {
        ||| raw.encoding@ == "u8"@ && last == first
        ||| raw.encoding@ == "u16le"@ && last == first + 1
        ||| raw.encoding@ == "u32le"@ && last == first + 3
        ||| raw.encoding@ == "ascii"@
        ||| raw.encoding@ == "raw"@
    }
    &&& {
        ||| raw.confidence@ == "confirmed"@
        ||| raw.confidence@ == "strongly-related"@
        ||| raw.confidence@ == "related-unknown"@
    }
}

/// Proper fields are accepted, and no others.
pub proof fn proper_fields_are_accepted(raw: RawEepromField, memory_low: u16, memory_high: u16)
    requires
        memory_low <= memory_high,
    ensures
        field_of(raw, memory_low, memory_high) is Ok <==> proper_field(
            raw,
            memory_low,
            memory_high,
        ),
{
    encodings_have_their_words(raw.label@, raw.encoding@);
    confidences_have_their_words(raw.label@, raw.confidence@, 1);
    reveal_strlit("u8");
    reveal_strlit("u16le");
    reveal_strlit("u32le");
    reveal_strlit("ascii");
    reveal_strlit("raw");
    assert("u8"@.len() == 2 && "raw"@.len() == 3 && "u16le"@.len() == 5 && "u32le"@.len() == 5
        && "ascii"@.len() == 5);
    assert("u16le"@[1] == '1');
    assert("u32le"@[1] == '3');
    assert("ascii"@[0] == 'a');
    assert("u16le"@[0] == 'u');
    assert("u32le"@[0] == 'u');
}

/// No address belongs to two of several fields.
pub open spec fn apart(fields: Seq<FieldView>) -> bool {
    forall|i: int, j: int, address: int|
        #![trigger fields[i], fields[j], in_field(fields[i], address)]
        0 <= i < j < fields.len() && in_field(fields[i], address) ==> !in_field(fields[j], address)
}

/// An address belongs to a field.
pub open spec fn in_field(field: FieldView, address: int) -> bool {
    field.address <= address <= field.end_address
}

proof fn lemma_overlapped(fields: Seq<FieldView>, field: FieldView)
    ensures
        overlapped(fields, field) is None <==> forall|i: int|
            0 <= i < fields.len() ==> !overlap(#[trigger] fields[i], field),
    decreases fields.len(),
{
    if fields.len() > 0 {
        let shorter = fields.drop_last();
        lemma_overlapped(shorter, field);
        let last = fields.len() - 1;
        if overlapped(fields, field) is None {
            assert forall|i: int| 0 <= i < fields.len() implies !overlap(
                #[trigger] fields[i],
                field,
            ) by {
                if i < last {
                    assert(!overlap(shorter[i], field));
                }
            }
        } else if forall|i: int| 0 <= i < fields.len() ==> !overlap(#[trigger] fields[i], field) {
            assert(!overlap(fields[last], field));
            assert forall|i: int| 0 <= i < shorter.len() implies !overlap(
                #[trigger] shorter[i],
                field,
            ) by {
                assert(!overlap(fields[i], field));
            }
        }
    }
}

proof fn lemma_overlap_error(fields: Seq<FieldView>)
    ensures
        overlap_error(fields) is None <==> forall|i: int, j: int|
            0 <= i < j < fields.len() ==> !overlap(#[trigger] fields[i], #[trigger] fields[j]),
    decreases fields.len(),
{
    if fields.len() > 0 {
        let shorter = fields.drop_last();
        let last = fields.len() - 1;
        lemma_overlap_error(shorter);
        lemma_overlapped(shorter, fields.last());
        if overlap_error(fields) is None {
            assert forall|i: int, j: int| 0 <= i < j < fields.len() implies !overlap(
                #[trigger] fields[i],
                #[trigger] fields[j],
            ) by {
                if j < last {
                    assert(!overlap(shorter[i], shorter[j]));
                } else {
                    assert(!overlap(shorter[i], fields[last]));
                }
            }
        } else if forall|i: int, j: int|
            0 <= i < j < fields.len() ==> !overlap(#[trigger] fields[i], #[trigger] fields[j]) {
            assert forall|i: int, j: int| 0 <= i < j < shorter.len() implies !overlap(
                #[trigger] shorter[i],
                #[trigger] shorter[j],
            ) by {
                assert(!overlap(fields[i], fields[j]));
            }
            assert forall|i: int| 0 <= i < shorter.len() implies !overlap(
                #[trigger] shorter[i],
                fields[last],
            ) by {
                assert(!overlap(fields[i], fields[last]));
            }
        }
    }
}

/// Fields are accepted together where no address belongs to two of them, and only there.
pub proof fn fields_must_lie_apart(fields: Seq<FieldView>)
    requires
        forall|i: int|
            0 <= i < fields.len() ==> (#[trigger] fields[i]).address <= fields[i].end_address,
    ensures
        overlap_error(fields) is None <==> apart(fields),
{
    lemma_overlap_error(fields);
    if overlap_error(fields) is None {
        assert forall|i: int, j: int, address: int|
            #![trigger fields[i], fields[j], in_field(fields[i], address)]
            0 <= i < j < fields.len() && in_field(fields[i], address) implies !in_field(
            fields[j],
            address,
        ) by {
            assert(!overlap(fields[i], fields[j]));
        }
    }
    if apart(fields) {
        assert forall|i: int, j: int| 0 <= i < j < fields.len() implies !overlap(
            #[trigger] fields[i],
            #[trigger] fields[j],
        ) by {
            if overlap(fields[i], fields[j]) {
                let address: int = if fields[i].address < fields[j].address {
                    fields[j].address as int
                } else {
                    fields[i].address as int
                };
                assert(in_field(fields[i], address));
                assert(in_field(fields[j], address));
            }
        }
    }
}

/// What is told of fields that share an address, of a range and of values that do not match
/// addresses: the first of both before the second.
pub proof fn bad_metadata_is_put_into_words(
    first: Seq<char>,
    second: Seq<char>,
    low: u16,
    high: u16,
    addresses: nat,
    reset_values: nat,
)
    ensures
        spec_error_text(SpecErrorView::OverlappingReadOnlyFields { first, second })
            == "read-only EEPROM fields "@ + debug_quoted(first) + " and "@ + debug_quoted(second)
            + " overlap"@,
        spec_error_text(SpecErrorView::InvalidMemoryRange { low, high })
            == "invalid EEPROM range "@ + ("0x"@ + crate::text::hex_text(low as nat, 4, false))
            + "..="@ + ("0x"@ + crate::text::hex_text(high as nat, 4, false)),
        spec_error_text(
            SpecErrorView::ResetLengthMismatch { description: first, addresses, reset_values },
        ) == "memory operation "@ + debug_quoted(first) + " has "@ + dec_text(addresses)
            + " addresses but "@ + dec_text(reset_values) + " reset values"@,
        spec_error_text(
            SpecErrorView::InvalidReadOnlyFieldRange {
                label: first,
                address: low,
                end_address: high,
            },
        ) == "read-only EEPROM field "@ + debug_quoted(first) + " has invalid range "@ + ("0x"@
            + crate::text::hex_text(low as nat, 4, false)) + "..="@ + ("0x"@
            + crate::text::hex_text(high as nat, 4, false)),
{
}

} // verus!
