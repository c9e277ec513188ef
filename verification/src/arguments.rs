//! What a command line asks for: numbers, updates, selections and the gates
//! before anything is written.
use crate::database::ModelDatabase;
use crate::epson::{
    declared_resets, merged_resets, merged_view, reset_pairs, target_name, CounterResetTarget, EpsonSpec, FieldView, SpecView,
};
use crate::controller::operation_updates;
use crate::identity::{detected_model_of, IdentityView, PrinterIdentity};
use crate::scan::{
    lemma_length_before_unique, length_before, number_of, read_number, separator_from,
    text_between, written_numbers_read_back,
};
use crate::session::{
    first_problem, proper_updates_are_accepted, validate_eeprom_updates as validate_plan,
    ApplicationError,
};
use crate::text::{
    characters, debug_quoted, debug_text, dec_text, hex_lower, hex_text, prefixed_hex, same_text,
    text_of,
};
use vstd::prelude::*;

verus! {

/// The confirmation that a write asks for.
pub const EEPROM_WRITE_CONFIRMATION: &'static str = "I_CONFIRM_THIS_WILL_WRITE_EEPROM";

/// The confirmation that a restore asks for.
pub const EEPROM_RESTORE_CONFIRMATION: &'static str = "I_CONFIRM_THIS_WILL_RESTORE_EEPROM";

/// The confirmation that a counter reset asks for.
pub const EEPROM_COUNTER_RESET_CONFIRMATION: &'static str =
    "I_CONFIRM_THIS_WILL_RESET_DECLARED_COUNTERS";

/// The further acknowledgement that a mutation through the stock driver asks for.
pub const WINDOWS_NATIVE_EXPERIMENTAL_MUTATION_ACKNOWLEDGEMENT: &'static str =
    "I_ACKNOWLEDGE_WINDOWS_NATIVE_MUTATION_IS_EXPERIMENTAL";

/// The digits of a written number, and their base: sixteen behind `0x`, and ten
/// otherwise.
pub open spec fn digits_and_radix(text: Seq<char>) -> (Seq<char>, nat) {
    if text.len() >= 2 && text[0] == '0' && text[1] == 'x' {
        (text.skip(2), 16)
    } else {
        (text, 10)
    }
}

/// The number that an argument stands for, up to a limit.
pub open spec fn argument_number(text: Seq<char>, limit: nat) -> Option<nat> {
    number_of(digits_and_radix(text).0, digits_and_radix(text).1, limit)
}

/// Reads a number up to a limit, or gives back the digits that are none.
fn read_argument(value: &str, limit: u32) -> (number: Result<u32, String>)
    ensures
        match (number, argument_number(value@, limit as nat)) {
            (Ok(number), Some(expected)) => number == expected,
            (Err(digits), None) => digits@ == digits_and_radix(value@).0,
            _ => false,
        },
{
    let chars = characters(value);
    let hexadecimal: bool = chars.len() >= 2 && chars[0] == '0' && chars[1] == 'x';
    let start: usize = if hexadecimal {
        2
    } else {
        0
    };
    let radix: u8 = if hexadecimal {
        16
    } else {
        10
    };
    let digits = vstd::slice::slice_subrange(chars.as_slice(), start, chars.len());
    proof {
        assert(digits@ =~= digits_and_radix(value@).0);
    }
    match read_number(digits, radix, limit) {
        Some(number) => Ok(number),
        None => Err(text_of(digits)),
    }
}

/// The words for a text that is no 16-bit number.
pub open spec fn word_refusal(text: Seq<char>) -> Seq<char> {
    "expected a decimal or 0x-prefixed 16-bit integer, got "@ + debug_quoted(
        digits_and_radix(text).0,
    )
}

/// Reads a 16-bit number in decimal or in hexadecimal behind `0x`.
pub fn parse_u16(value: &str) -> (number: Result<u16, String>)
    ensures
        match (number, argument_number(value@, 0xffff)) {
            (Ok(number), Some(expected)) => number == expected,
            (Err(message), None) => message@ == word_refusal(value@),
            _ => false,
        },
{
    match read_argument(value, 0xffff) {
        Ok(number) => {
            proof {
                crate::scan::lemma_number_limit(
                    digits_and_radix(value@).0,
                    digits_and_radix(value@).1,
                    0xffff,
                );
            }
            Ok(number as u16)
        },
        Err(digits) => Err(
            String::from_str("expected a decimal or 0x-prefixed 16-bit integer, got ").concat(
                debug_text(digits.as_str()).as_str(),
            ),
        ),
    }
}

/// The words for a text that is no byte.
pub open spec fn byte_refusal(text: Seq<char>) -> Seq<char> {
    "expected a decimal or 0x-prefixed byte, got "@ + debug_quoted(digits_and_radix(text).0)
}

/// Reads a byte in decimal or in hexadecimal behind `0x`.
pub fn parse_u8(value: &str) -> (number: Result<u8, String>)
    ensures
        match (number, argument_number(value@, 0xff)) {
            (Ok(number), Some(expected)) => number == expected,
            (Err(message), None) => message@ == byte_refusal(value@),
            _ => false,
        },
{
    match read_argument(value, 0xff) {
        Ok(number) => {
            proof {
                crate::scan::lemma_number_limit(
                    digits_and_radix(value@).0,
                    digits_and_radix(value@).1,
                    0xff,
                );
            }
            Ok(number as u8)
        },
        Err(digits) => Err(
            String::from_str("expected a decimal or 0x-prefixed byte, got ").concat(
                debug_text(digits.as_str()).as_str(),
            ),
        ),
    }
}

/// The update that an argument stands for, or what is wrong with it.
pub open spec fn update_of(text: Seq<char>) -> Result<(nat, nat), Seq<char>> {
    let length = length_before(text, '=') as int;
    if length >= text.len() {
        Err("expected EEPROM update in ADDRESS=VALUE form, got "@ + debug_quoted(text))
    } else {
        let address = text.take(length);
        let value = text.skip(length + 1);
        match (argument_number(address, 0xffff), argument_number(value, 0xff)) {
            (None, _) => Err(word_refusal(address)),
            (_, None) => Err(byte_refusal(value)),
            (Some(address), Some(value)) => Ok((address, value)),
        }
    }
}

/// Reads an update of the form `ADDRESS=VALUE`.
pub fn parse_eeprom_update(value: &str) -> (update: Result<(u16, u8), String>)
    ensures
        match (update, update_of(value@)) {
            (Ok(update), Ok(expected)) => update.0 == expected.0 && update.1 == expected.1,
            (Err(message), Err(expected)) => message@ == expected,
            _ => false,
        },
{
    let chars = characters(value);
    let position: usize = separator_from(chars.as_slice(), 0, '=');
    proof {
        assert(value@.skip(0) =~= value@);
    }
    if position >= chars.len() {
        return Err(
            String::from_str("expected EEPROM update in ADDRESS=VALUE form, got ").concat(
                debug_text(value).as_str(),
            ),
        );
    }
    let address = text_between(chars.as_slice(), 0, position);
    let byte = text_between(chars.as_slice(), position + 1, chars.len());
    proof {
        assert(address@ =~= value@.take(position as int));
        assert(byte@ =~= value@.skip(position + 1));
    }
    match parse_u16(address.as_str()) {
        Err(message) => Err(message),
        Ok(address) => match parse_u8(byte.as_str()) {
            Err(message) => Err(message),
            Ok(byte) => Ok((address, byte)),
        },
    }
}

/// An earlier one of several addresses is the same.
pub open spec fn listed_before(addresses: Seq<u16>, index: int) -> bool {
    exists|earlier: int| 0 <= earlier < index && #[trigger] addresses[earlier] == addresses[index]
}

/// What keeps an address from being read.
pub open spec fn address_problem(settings: SpecView, addresses: Seq<u16>, index: int) -> Option<
    Seq<char>,
> {
    let address = addresses[index];
    if address < settings.memory_low || address > settings.memory_high {
        Some(
            "EEPROM read address "@ + prefixed_hex(address as nat, 4) + " is outside model range "@
                + prefixed_hex(settings.memory_low as nat, 4) + "..="@ + prefixed_hex(
                settings.memory_high as nat,
                4,
            ),
        )
    } else if listed_before(addresses, index) {
        Some("EEPROM read address "@ + prefixed_hex(address as nat, 4) + " is duplicated"@)
    } else {
        None
    }
}

/// What is wrong with the first bad address among the first few.
pub open spec fn first_address_problem(
    settings: SpecView,
    addresses: Seq<u16>,
    count: int,
) -> Option<Seq<char>>
    decreases count,
{
    if count <= 0 {
        None
    } else {
        match first_address_problem(settings, addresses, count - 1) {
            Some(problem) => Some(problem),
            None => address_problem(settings, addresses, count - 1),
        }
    }
}

/// What keeps addresses from being read: that there are none, or what is wrong
/// with the first bad one.
pub open spec fn read_problem(settings: SpecView, addresses: Seq<u16>) -> Option<Seq<char>> {
    if addresses.len() == 0 {
        Some("at least one --address is required"@)
    } else {
        first_address_problem(settings, addresses, addresses.len() as int)
    }
}

proof fn lemma_first_address_problem(
    settings: SpecView,
    addresses: Seq<u16>,
    count: int,
    more: int,
)
    requires
        0 <= count <= more,
        first_address_problem(settings, addresses, count) is Some,
    ensures
        first_address_problem(settings, addresses, more) == first_address_problem(
            settings,
            addresses,
            count,
        ),
    decreases more,
{
    if count < more {
        lemma_first_address_problem(settings, addresses, count, more - 1);
    }
}

fn address_listed_before(addresses: &[u16], index: usize) -> (found: bool)
    requires
        index < addresses@.len(),
    ensures
        found == listed_before(addresses@, index as int),
{
    let mut earlier: usize = 0;
    while earlier < index
        invariant
            earlier <= index < addresses@.len(),
            forall|i: int| 0 <= i < earlier ==> #[trigger] addresses@[i] != addresses@[index as int],
        decreases index - earlier,
    {
        if addresses[earlier] == addresses[index] {
            return true;
        }
        earlier = earlier + 1;
    }
    false
}

/// Checks addresses before any of them is read: there is at least one, each
/// lies in the range of the model, and none is given twice.
pub fn validate_eeprom_read_addresses(settings: &EpsonSpec, addresses: &[u16]) -> (valid: Result<
    (),
    String,
>)
    ensures
        match (valid, read_problem(settings@, addresses@)) {
            (Ok(_), None) => true,
            (Err(message), Some(problem)) => message@ == problem,
            _ => false,
        },
{
    if addresses.len() == 0 {
        return Err(String::from_str("at least one --address is required"));
    }
    let mut index: usize = 0;
    while index < addresses.len()
        invariant
            index <= addresses@.len(),
            first_address_problem(settings@, addresses@, index as int) is None,
        decreases addresses.len() - index,
    {
        let address: u16 = addresses[index];
        if address < settings.memory_low || address > settings.memory_high {
            proof {
                lemma_first_address_problem(
                    settings@,
                    addresses@,
                    index + 1,
                    addresses@.len() as int,
                );
            }
            return Err(
                String::from_str("EEPROM read address ").concat(
                    hex_lower(address as u64, 4).as_str(),
                ).concat(" is outside model range ").concat(
                    hex_lower(settings.memory_low as u64, 4).as_str(),
                ).concat("..=").concat(hex_lower(settings.memory_high as u64, 4).as_str()),
            );
        }
        if address_listed_before(addresses, index) {
            proof {
                lemma_first_address_problem(
                    settings@,
                    addresses@,
                    index + 1,
                    addresses@.len() as int,
                );
            }
            return Err(
                String::from_str("EEPROM read address ").concat(
                    hex_lower(address as u64, 4).as_str(),
                ).concat(" is duplicated"),
            );
        }
        index = index + 1;
    }
    Ok(())
}

/// What keeps updates from a command line from being written.
pub open spec fn update_refusal(settings: SpecView, updates: Seq<(u16, u8)>) -> Option<Seq<char>> {
    if updates.len() == 0 {
        Some("at least one --update ADDRESS=VALUE is required"@)
    } else {
        first_problem(settings, updates, updates.len() as int)
    }
}

/// Checks updates from a command line before any of them is written.
pub fn validate_eeprom_updates(settings: &EpsonSpec, updates: &[(u16, u8)]) -> (valid: Result<
    (),
    String,
>)
    ensures
        match (valid, update_refusal(settings@, updates@)) {
            (Ok(_), None) => true,
            (Err(message), Some(problem)) => message@ == problem,
            _ => false,
        },
{
    if updates.len() == 0 {
        return Err(String::from_str("at least one --update ADDRESS=VALUE is required"));
    }
    match validate_plan(settings, updates) {
        Ok(_) => Ok(()),
        Err(ApplicationError::WritePlan(problem)) => Err(problem),
        Err(error) => Err(error.message()),
    }
}

/// Checks the confirmation that a command asks for: only the exact words do.
pub fn validate_confirmation(confirmation: Option<&str>, expected: &str, command: &str) -> (valid:
    Result<(), String>)
    ensures
        match valid {
            Ok(_) => confirmation matches Some(given) && given@ == expected@,
            Err(message) => !(confirmation matches Some(given) && given@ == expected@) && message@
                == command@ + " requires --confirmation "@ + expected@ + " exactly"@,
        },
{
    let confirmed: bool = match confirmation {
        Some(given) => same_text(given, expected),
        None => false,
    };
    if confirmed {
        Ok(())
    } else {
        Err(
            command.to_owned().concat(" requires --confirmation ").concat(expected).concat(
                " exactly",
            ),
        )
    }
}

/// Checks the acknowledgement that a mutation through the stock driver asks for.
pub fn validate_native_acknowledgement(acknowledgement: Option<&str>) -> (valid: Result<
    (),
    String,
>)
    ensures
        match valid {
            Ok(_) => acknowledgement matches Some(given) && given@
                == WINDOWS_NATIVE_EXPERIMENTAL_MUTATION_ACKNOWLEDGEMENT@,
            Err(message) => !(acknowledgement matches Some(given) && given@
                == WINDOWS_NATIVE_EXPERIMENTAL_MUTATION_ACKNOWLEDGEMENT@) && message@
                == "experimental Windows native USBPRINT mutation requires --native-experimental-acknowledgement "@
                + WINDOWS_NATIVE_EXPERIMENTAL_MUTATION_ACKNOWLEDGEMENT@ + " exactly"@,
        },
{
    let acknowledged: bool = match acknowledgement {
        Some(given) => same_text(given, WINDOWS_NATIVE_EXPERIMENTAL_MUTATION_ACKNOWLEDGEMENT),
        None => false,
    };
    if acknowledged {
        Ok(())
    } else {
        Err(
            String::from_str(
                "experimental Windows native USBPRINT mutation requires --native-experimental-acknowledgement ",
            ).concat(WINDOWS_NATIVE_EXPERIMENTAL_MUTATION_ACKNOWLEDGEMENT).concat(" exactly"),
        )
    }
}

/// Lets a mutation through the stock driver pass only if it has been acknowledged.
pub fn require_native_experimental_mutation_acknowledgement(acknowledged: bool) -> (passed: Result<
    (),
    String,
>)
    ensures
        match passed {
            Ok(_) => acknowledged,
            Err(message) => !acknowledged && message@
                == "experimental Windows native USBPRINT mutation requires the acknowledgement "@
                + WINDOWS_NATIVE_EXPERIMENTAL_MUTATION_ACKNOWLEDGEMENT@,
        },
{
    if acknowledged {
        Ok(())
    } else {
        Err(
            String::from_str(
                "experimental Windows native USBPRINT mutation requires the acknowledgement ",
            ).concat(WINDOWS_NATIVE_EXPERIMENTAL_MUTATION_ACKNOWLEDGEMENT),
        )
    }
}

/// Checks a path for a new file, given whether something exists there and which
/// parent directory is missing, if one is.
pub fn validate_new_file_path(
    path: &str,
    kind: &str,
    exists: bool,
    missing_parent: Option<&str>,
) -> (valid: Result<(), String>)
    ensures
        match valid {
            Ok(_) => !exists && missing_parent is None,
            Err(message) => if exists {
                message@ == "refusing to overwrite existing "@ + kind@ + ": "@ + path@
            } else {
                missing_parent matches Some(parent) && message@ == kind@
                    + " parent directory does not exist: "@ + parent@
            },
        },
{
    if exists {
        return Err(
            String::from_str("refusing to overwrite existing ").concat(kind).concat(": ").concat(
                path,
            ),
        );
    }
    match missing_parent {
        Some(parent) => Err(
            kind.to_owned().concat(" parent directory does not exist: ").concat(parent),
        ),
        None => Ok(()),
    }
}

/// Which USB device is meant: by its identifiers, and at one place if that is given.
#[derive(Clone, Copy, Debug, PartialEq, Eq)]
pub struct UsbDeviceSelector {
    pub vendor_id: u16,
    pub product_id: u16,
    pub location: Option<(u8, u8)>,
}

impl UsbDeviceSelector {
    pub fn new(vendor_id: u16, product_id: u16) -> (selector: Self)
        ensures
            selector == (UsbDeviceSelector { vendor_id, product_id, location: None }),
    {
        UsbDeviceSelector { vendor_id, product_id, location: None }
    }

    pub fn at_location(vendor_id: u16, product_id: u16, bus_number: u8, device_address: u8) -> (
        selector: Self)
        ensures
            selector == (UsbDeviceSelector {
                vendor_id,
                product_id,
                location: Some((bus_number, device_address)),
            }),
    {
        UsbDeviceSelector { vendor_id, product_id, location: Some((bus_number, device_address)) }
    }
}

/// Selects a USB device: a place is given by bus and address together, or not at all.
pub fn usb_device_selector(
    vendor_id: u16,
    product_id: u16,
    bus_number: Option<u8>,
    device_address: Option<u8>,
) -> (selector: Result<UsbDeviceSelector, String>)
    ensures
        match (bus_number, device_address) {
            (None, None) => selector matches Ok(selector) && selector == (UsbDeviceSelector {
                vendor_id,
                product_id,
                location: None,
            }),
            (Some(bus), Some(address)) => selector matches Ok(selector) && selector
                == (UsbDeviceSelector { vendor_id, product_id, location: Some((bus, address)) }),
            _ => selector matches Err(message) && message@
                == "--bus-number and --device-address must be provided together"@,
        },
{
    match (bus_number, device_address) {
        (None, None) => Ok(UsbDeviceSelector::new(vendor_id, product_id)),
        (Some(bus_number), Some(device_address)) => Ok(
            UsbDeviceSelector::at_location(vendor_id, product_id, bus_number, device_address),
        ),
        _ => Err(
            String::from_str("--bus-number and --device-address must be provided together"),
        ),
    }
}

/// A counter family on the command line.
#[derive(Clone, Copy, Debug, PartialEq, Eq, Structural)]
pub enum CounterResetSelection {
    Waste,
    PlatenPad,
}

/// The counter family that a selection stands for.
pub open spec fn selected_target(selection: CounterResetSelection) -> CounterResetTarget {
    match selection {
        CounterResetSelection::Waste => CounterResetTarget::Waste,
        CounterResetSelection::PlatenPad => CounterResetTarget::PlatenPad,
    }
}

impl CounterResetSelection {
    pub fn target(self) -> (target: CounterResetTarget)
        ensures
            target == selected_target(self),
    {
        match self {
            CounterResetSelection::Waste => CounterResetTarget::Waste,
            CounterResetSelection::PlatenPad => CounterResetTarget::PlatenPad,
        }
    }
}

/// The updates that a reset on the command line stands for, or why there are none.
pub open spec fn selected_updates(settings: SpecView, target: CounterResetTarget) -> Result<
    Seq<(u16, u8)>,
    Seq<char>,
> {
    match merged_view(settings, target_name(target)) {
        None => Err(
            "model "@ + settings.model + " has no explicitly declared "@ + target_name(target)
                + " reset bytes"@,
        ),
        Some(operation) => match update_refusal(settings, reset_pairs(operation)) {
            Some(problem) => Err(problem),
            None => Ok(reset_pairs(operation)),
        },
    }
}

/// Returns only model bytes with explicitly declared reset values for the
/// selected counter family.
pub fn declared_counter_reset_updates(settings: &EpsonSpec, selection: CounterResetSelection) -> (
    updates: Result<Vec<(u16, u8)>, String>)
    ensures
        match (updates, selected_updates(settings@, selected_target(selection))) {
            (Ok(updates), Ok(expected)) => updates@ == expected,
            (Err(message), Err(expected)) => message@ == expected,
            _ => false,
        },
{
    let target = selection.target();
    let operation = match settings.counter_reset(target) {
        Some(operation) => operation,
        None => return Err(
            String::from_str("model ").concat(settings.model.as_str()).concat(
                " has no explicitly declared ",
            ).concat(target.display_name()).concat(" reset bytes"),
        ),
    };
    let updates = operation_updates(&operation);
    match validate_eeprom_updates(settings, updates.as_slice()) {
        Err(message) => Err(message),
        Ok(_) => Ok(updates),
    }
}

/// Looks up the settings of a model.
pub fn selected_model(database: &ModelDatabase, model: &str) -> (settings: Result<
    EpsonSpec,
    String,
>)
    requires
        database.well_formed(),
    ensures
        match settings {
            Ok(settings) => database@.contains_key(model@) && settings@ == database@[model@],
            Err(message) => !database@.contains_key(model@) && message@ == "unknown model: "@
                + model@,
        },
{
    match database.get(model) {
        Some(settings) => Ok(settings.duplicate()),
        None => Err(String::from_str("unknown model: ").concat(model)),
    }
}

/// What a comparison of the connected and the requested model says.
pub open spec fn requested_mismatch(identity: IdentityView, model: Seq<char>) -> Option<Seq<char>> {
    match detected_model_of(identity) {
        Some(detected) => if detected == model {
            None
        } else {
            Some(
                "printer identity model "@ + debug_quoted(detected)
                    + " does not match requested model "@ + debug_quoted(model),
            )
        },
        None => Some(
            "printer identity does not contain a model; requested model is "@ + debug_quoted(model),
        ),
    }
}

/// Verifies that a connected printer is of the requested model.
pub fn verify_requested_model(identity: &PrinterIdentity, model: &str) -> (verified: Result<
    (),
    String,
>)
    requires
        identity.well_formed(),
    ensures
        match (verified, requested_mismatch(identity@, model@)) {
            (Ok(_), None) => true,
            (Err(message), Some(expected)) => message@ == expected,
            _ => false,
        },
{
    match identity.detected_model() {
        Some(detected) => if same_text(detected.as_str(), model) {
            Ok(())
        } else {
            Err(
                String::from_str("printer identity model ").concat(
                    debug_text(detected.as_str()).as_str(),
                ).concat(" does not match requested model ").concat(debug_text(model).as_str()),
            )
        },
        None => Err(
            String::from_str(
                "printer identity does not contain a model; requested model is ",
            ).concat(debug_text(model).as_str()),
        ),
    }
}

/// An address belongs to a field whose value is to stay hidden.
pub open spec fn sensitive_address(fields: Seq<FieldView>, address: u16) -> bool {
    exists|i: int|
        0 <= i < fields.len() && (#[trigger] fields[i]).sensitive && fields[i].address <= address
            <= fields[i].end_address
}

/// Whether an address belongs to a field whose value is to stay hidden.
pub fn is_sensitive_address(settings: &EpsonSpec, address: u16) -> (sensitive: bool)
    ensures
        sensitive == sensitive_address(settings@.read_only_fields, address),
{
    let mut index: usize = 0;
    let ghost fields = settings@.read_only_fields;
    while index < settings.read_only_fields.len()
        invariant
            index <= settings.read_only_fields@.len(),
            fields == settings@.read_only_fields,
            forall|i: int|
                0 <= i < index ==> !((#[trigger] fields[i]).sensitive && fields[i].address
                    <= address <= fields[i].end_address),
        decreases settings.read_only_fields.len() - index,
    {
        let field = &settings.read_only_fields[index];
        proof {
            assert(fields[index as int] == field@);
        }
        if field.sensitive && field.address <= address && address <= field.end_address {
            return true;
        }
        index = index + 1;
    }
    false
}

/// What keeps addresses from being displayed: the first of them that belongs to
/// a field whose value is to stay hidden.
pub open spec fn sensitive_refusal(settings: SpecView, addresses: Seq<u16>) -> Option<Seq<char>>
    decreases addresses.len(),
{
    if addresses.len() == 0 {
        None
    } else {
        match sensitive_refusal(settings, addresses.drop_last()) {
            Some(message) => Some(message),
            None => if sensitive_address(settings.read_only_fields, addresses.last()) {
                Some(
                    "EEPROM address "@ + prefixed_hex(addresses.last() as nat, 4)
                        + " is part of a sensitive identity field and cannot be displayed by the Windows native command; use a private binary dump if authorized"@,
                )
            } else {
                None
            },
        }
    }
}

proof fn lemma_sensitive_refusal(settings: SpecView, addresses: Seq<u16>, count: int)
    requires
        0 <= count <= addresses.len(),
        sensitive_refusal(settings, addresses.take(count)) is Some,
    ensures
        sensitive_refusal(settings, addresses) == sensitive_refusal(
            settings,
            addresses.take(count),
        ),
    decreases addresses.len(),
{
    if count == addresses.len() {
        assert(addresses.take(count) =~= addresses);
    } else {
        assert(addresses.drop_last().take(count) =~= addresses.take(count));
        lemma_sensitive_refusal(settings, addresses.drop_last(), count);
    }
}

/// Refuses to display addresses of fields whose values are to stay hidden.
pub fn validate_native_sensitive_addresses(settings: &EpsonSpec, addresses: &[u16]) -> (valid:
    Result<(), String>)
    ensures
        match (valid, sensitive_refusal(settings@, addresses@)) {
            (Ok(_), None) => true,
            (Err(message), Some(refusal)) => message@ == refusal,
            _ => false,
        },
{
    let mut index: usize = 0;
    while index < addresses.len()
        invariant
            index <= addresses@.len(),
            sensitive_refusal(settings@, addresses@.take(index as int)) is None,
        decreases addresses.len() - index,
    {
        let address: u16 = addresses[index];
        proof {
            let longer = addresses@.take(index + 1);
            assert(longer.drop_last() =~= addresses@.take(index as int));
            assert(longer.last() == address);
        }
        if is_sensitive_address(settings, address) {
            proof {
                lemma_sensitive_refusal(settings@, addresses@, index + 1);
            }
            return Err(
                String::from_str("EEPROM address ").concat(
                    hex_lower(address as u64, 4).as_str(),
                ).concat(
                    " is part of a sensitive identity field and cannot be displayed by the Windows native command; use a private binary dump if authorized",
                ),
            );
        }
        index = index + 1;
    }
    proof {
        assert(addresses@.take(index as int) =~= addresses@);
    }
    Ok(())
}

/// A text does not begin with `0x`, so that its digits are decimal.
proof fn lemma_decimal_argument(number: nat)
    ensures
        digits_and_radix(dec_text(number)) == (dec_text(number), 10nat),
        forall|i: int|
            0 <= i < dec_text(number).len() ==> '0' <= #[trigger] dec_text(number)[i] <= '9',
    decreases number,
{
    if number >= 10 {
        lemma_decimal_argument(number / 10);
        assert forall|i: int| 0 <= i < dec_text(number).len() implies '0' <= #[trigger] dec_text(
            number,
        )[i] <= '9' by {
            if i < dec_text(number / 10).len() {
                assert(dec_text(number)[i] == dec_text(number / 10)[i]);
            }
        }
    }
}

proof fn lemma_hexadecimal_argument(number: nat, width: nat, upper: bool)
    ensures
        forall|i: int|
            0 <= i < hex_text(number, width, upper).len() ==> #[trigger] hex_text(
                number,
                width,
                upper,
            )[i] != '=',
    decreases number, width,
{
    if !(number < 16 && width <= 1) {
        let shorter: nat = if width == 0 {
            0
        } else {
            (width - 1) as nat
        };
        let front = hex_text(number / 16, shorter, upper);
        lemma_hexadecimal_argument(number / 16, shorter, upper);
        assert forall|i: int| 0 <= i < hex_text(number, width, upper).len() implies
            #[trigger] hex_text(number, width, upper)[i] != '=' by {
            if i < front.len() {
                assert(hex_text(number, width, upper)[i] == front[i]);
            }
        }
    }
}

/// A number on the command line is hexadecimal behind `0x` and decimal otherwise, and
/// is taken up to the limit.
pub proof fn arguments_are_read(number: nat, width: nat, upper: bool, limit: nat)
    ensures
        argument_number(dec_text(number), limit) == (if number <= limit {
            Some(number)
        } else {
            None
        }),
        argument_number(seq!['0', 'x'] + hex_text(number, width, upper), limit) == (if number
            <= limit {
            Some(number)
        } else {
            None
        }),
{
    lemma_decimal_argument(number);
    let larger: nat = if number <= limit {
        limit
    } else {
        number
    };
    written_numbers_read_back(number, width, upper, larger);
    let digits = hex_text(number, width, upper);
    assert((seq!['0', 'x'] + digits).skip(2) =~= digits);
}

/// An update on the command line is an address, an equals sign and a value, in this
/// order; an address of more than 16 bits and a value of more than a byte are refused.
pub proof fn updates_are_read(address: nat, value: nat, width: nat, upper: bool)
    ensures
        ({
            let text = (seq!['0', 'x'] + hex_text(address, width, upper)).push('=') + dec_text(
                value,
            );
            if address <= 65535 && value <= 255 {
                update_of(text) == Ok::<(nat, nat), Seq<char>>((address, value))
            } else {
                update_of(text) is Err
            }
        }),
{
    arguments_are_read(address, width, upper, 65535);
    arguments_are_read(value, width, upper, 255);
    lemma_hexadecimal_argument(address, width, upper);
    let front = seq!['0', 'x'] + hex_text(address, width, upper);
    let text = front.push('=') + dec_text(value);
    let length = front.len() as int;
    assert forall|i: int| 0 <= i < length implies #[trigger] text[i] != '=' by {
        if i >= 2 {
            assert(text[i] == hex_text(address, width, upper)[i - 2]);
        }
    }
    assert(text[length] == '=');
    lemma_length_before_unique(text, '=', length);
    assert(text.take(length) =~= front);
    assert(text.skip(length + 1) =~= dec_text(value));
}

/// A text without an equals sign is no update.
pub proof fn updates_need_an_equals_sign(text: Seq<char>)
    requires
        forall|i: int| 0 <= i < text.len() ==> #[trigger] text[i] != '=',
    ensures
        update_of(text) is Err,
{
    lemma_length_before_unique(text, '=', text.len() as int);
}

/// Addresses may be read if there are some, if they lie in the range of the model and
/// if none is given twice; of several bad ones the first is named.
pub proof fn proper_addresses_are_read(settings: SpecView, addresses: Seq<u16>, index: int)
    ensures
        read_problem(settings, addresses) is None <==> addresses.len() > 0 && (forall|i: int|
            0 <= i < addresses.len() ==> settings.memory_low <= #[trigger] addresses[i]
                <= settings.memory_high) && (forall|i: int, j: int|
            0 <= i < j < addresses.len() ==> #[trigger] addresses[i] != #[trigger] addresses[j]),
        0 <= index < addresses.len() && (forall|i: int|
            0 <= i < index ==> settings.memory_low <= #[trigger] addresses[i]
                <= settings.memory_high) && (forall|i: int, j: int|
            0 <= i < j < index ==> #[trigger] addresses[i] != #[trigger] addresses[j]) && !(
        settings.memory_low <= addresses[index] <= settings.memory_high) ==> read_problem(
            settings,
            addresses,
        ) == Some(
            "EEPROM read address "@ + ("0x"@ + hex_text(addresses[index] as nat, 4, false))
                + " is outside model range "@ + ("0x"@ + hex_text(
                settings.memory_low as nat,
                4,
                false,
            )) + "..="@ + ("0x"@ + hex_text(settings.memory_high as nat, 4, false)),
        ),
{
    lemma_addresses_good(settings, addresses, addresses.len() as int);
    if 0 <= index < addresses.len() {
        lemma_addresses_good(settings, addresses, index);
        if first_address_problem(settings, addresses, index) is None && address_problem(
            settings,
            addresses,
            index,
        ) is Some {
            lemma_first_address_problem(
                settings,
                addresses,
                index + 1,
                addresses.len() as int,
            );
        }
    }
}

proof fn lemma_addresses_good(settings: SpecView, addresses: Seq<u16>, count: int)
    requires
        0 <= count <= addresses.len(),
    ensures
        first_address_problem(settings, addresses, count) is None <==> (forall|i: int|
            0 <= i < count ==> settings.memory_low <= #[trigger] addresses[i]
                <= settings.memory_high) && (forall|i: int, j: int|
            0 <= i < j < count ==> #[trigger] addresses[i] != #[trigger] addresses[j]),
    decreases count,
{
    if count > 0 {
        lemma_addresses_good(settings, addresses, count - 1);
        let last = count - 1;
        if first_address_problem(settings, addresses, count) is None {
            assert forall|i: int, j: int| 0 <= i < j < count implies #[trigger] addresses[i]
                != #[trigger] addresses[j] by {
                if j == last {
                    assert(!listed_before(addresses, last));
                }
            }
        }
        if listed_before(addresses, last) {
            let earlier = choose|earlier: int|
                0 <= earlier < last && #[trigger] addresses[earlier] == addresses[last];
            assert(addresses[earlier] == addresses[last]);
        }
    }
}

/// An address belongs to a field of the model that is to stay hidden.
pub open spec fn hides(settings: EpsonSpec, address: u16) -> bool {
    exists|j: int|
        0 <= j < settings.read_only_fields@.len() && (
        #[trigger] settings.read_only_fields@[j]).sensitive
            && settings.read_only_fields@[j].address <= address
            <= settings.read_only_fields@[j].end_address
}

proof fn lemma_hides(settings: EpsonSpec, address: u16)
    ensures
        hides(settings, address) <==> sensitive_address(settings@.read_only_fields, address),
{
    let fields = settings@.read_only_fields;
    if hides(settings, address) {
        let j = choose|j: int|
            0 <= j < settings.read_only_fields@.len() && (
            #[trigger] settings.read_only_fields@[j]).sensitive
                && settings.read_only_fields@[j].address <= address
                <= settings.read_only_fields@[j].end_address;
        assert(fields[j].sensitive);
    }
    if sensitive_address(fields, address) {
        let j = choose|j: int|
            0 <= j < fields.len() && (#[trigger] fields[j]).sensitive && fields[j].address
                <= address <= fields[j].end_address;
        assert(settings.read_only_fields@[j].sensitive);
    }
}

/// Addresses are shown through the stock driver where none of them belongs to a field
/// that is to stay hidden.
pub proof fn hidden_fields_are_not_read(settings: EpsonSpec, addresses: Seq<u16>)
    ensures
        sensitive_refusal(settings@, addresses) is None <==> forall|i: int|
            0 <= i < addresses.len() ==> !hides(settings, #[trigger] addresses[i]),
    decreases addresses.len(),
{
    if addresses.len() > 0 {
        let shorter = addresses.drop_last();
        let last = addresses.len() - 1;
        hidden_fields_are_not_read(settings, shorter);
        lemma_hides(settings, addresses[last]);
        if forall|i: int| 0 <= i < addresses.len() ==> !hides(settings, #[trigger] addresses[i]) {
            assert(!hides(settings, addresses[last]));
            assert forall|i: int| 0 <= i < shorter.len() implies !hides(
                settings,
                #[trigger] shorter[i],
            ) by {
                assert(!hides(settings, addresses[i]));
            }
        }
        if sensitive_refusal(settings@, addresses) is None {
            assert forall|i: int| 0 <= i < addresses.len() implies !hides(
                settings,
                #[trigger] addresses[i],
            ) by {
                if i < last {
                    assert(!hides(settings, shorter[i]));
                }
            }
        }
    }
}

/// What a reset on the command line writes: the declared resets of the counter family
/// that was selected.
pub proof fn selected_resets_write_the_declared_values(
    settings: SpecView,
    selection: CounterResetSelection,
)
    requires
        selected_updates(settings, selected_target(selection)) is Ok,
    ensures
        selected_updates(settings, selected_target(selection))->Ok_0 == merged_resets(
            declared_resets(
                settings.memory_operations,
                match selection {
                    CounterResetSelection::Waste => "waste counter"@,
                    CounterResetSelection::PlatenPad => "platen pad counter"@,
                },
            ),
        ),
{
    let name = target_name(selected_target(selection));
    let merged = merged_resets(declared_resets(settings.memory_operations, name));
    assert(selected_updates(settings, selected_target(selection))->Ok_0 =~= merged);
}

/// Updates on the command line may be written if there are some, if they lie in the range
/// of the model and if no two of them have the same address.
pub proof fn proper_updates_may_be_written(settings: SpecView, updates: Seq<(u16, u8)>)
    ensures
        update_refusal(settings, updates) is None <==> updates.len() > 0 && (forall|i: int|
            0 <= i < updates.len() ==> settings.memory_low <= (#[trigger] updates[i]).0
                <= settings.memory_high) && (forall|i: int, j: int|
            0 <= i < j < updates.len() ==> (#[trigger] updates[i]).0 != (#[trigger] updates[j]).0),
{
    proper_updates_are_accepted(settings, updates);
}

} // verus!
