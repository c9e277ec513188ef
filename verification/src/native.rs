//! Printers behind the stock driver of Windows, and what commands print of them.
use crate::database::ModelDatabase;
use crate::epson::SpecView;
use crate::fields::{join, joined, push_field};
use crate::gui::{hints_for, model_hints_for_usb_candidate};
use crate::identity::{detected_model_of, field_of_identity, IdentityView, PrinterIdentity};
use crate::json::{
    json_content, json_contents, json_list, json_null, json_number, json_object, json_optional,
    json_string, json_text, json_texts, json_to_text, json_truth, json_with, optional_text,
    text_list, Json,
};
use crate::platform::TransportEvent;
use crate::report::{
    failure_of, finish_usb_operation, operation_failures, or_words, string_text, tells,
};
use crate::session::{
    last_address, CleanupView, EepromImage, ImageView, SelectedUsbSessionOutcome,
    UsbCleanupStatus,
};
use crate::text::{dec, dec_text, hex, hex_text};
use crate::text_map::texts;
use serde_json::Value;
use vstd::prelude::*;

verus! {

/// What the stock driver lets one do with a printer.
#[derive(Clone, Copy, Debug, PartialEq, Eq, Structural)]
pub struct NativeCapabilities {
    pub d4_read: bool,
    pub usb_device_id: bool,
    pub persistent_mutation: bool,
    pub experimental_mutation: bool,
}

/// A printer behind the stock driver.
#[derive(Clone, Copy, Debug)]
pub struct NativeCandidate {
    pub vendor_id: u16,
    pub product_id: u16,
    pub interface_number: Option<u8>,
    pub capabilities: NativeCapabilities,
}

/// The name under which a printer is listed.
pub open spec fn native_alias(index: int) -> Seq<char> {
    "windows-native-"@ + dec_text((index + 1) as nat)
}

/// What is listed of a printer in JSON.
pub open spec fn candidate_json(
    candidate: NativeCandidate,
    index: int,
    hints: Seq<Seq<char>>,
) -> Json {
    let capabilities = candidate.capabilities;
    Json::Object(
        Map::empty().insert("alias"@, Json::Text(native_alias(index))).insert(
            "backend"@,
            Json::Text("windows_native_usbprint"@),
        ).insert("vendor_id"@, Json::Text(hex_text(candidate.vendor_id as nat, 4, false))).insert(
            "product_id"@,
            Json::Text(hex_text(candidate.product_id as nat, 4, false)),
        ).insert(
            "interface"@,
            match candidate.interface_number {
                Some(number) => Json::Number(number as nat),
                None => Json::Null,
            },
        ).insert("model_hints"@, text_list(hints)).insert(
            "capabilities"@,
            Json::Object(
                Map::empty().insert("d4_read"@, Json::Truth(capabilities.d4_read)).insert(
                    "usb_device_id"@,
                    Json::Truth(capabilities.usb_device_id),
                ).insert(
                    "persistent_mutation"@,
                    Json::Truth(capabilities.persistent_mutation),
                ).insert(
                    "experimental_mutation"@,
                    Json::Truth(capabilities.experimental_mutation),
                ),
            ),
        ),
    )
}

/// The line on a printer.
pub open spec fn candidate_line(candidate: NativeCandidate, index: int) -> Seq<char> {
    native_alias(index) + " — "@ + hex_text(candidate.vendor_id as nat, 4, false) + ":"@
        + hex_text(candidate.product_id as nat, 4, false) + ", interface "@ + match candidate.interface_number {
        Some(number) => dec_text(number as nat),
        None => "not reported"@,
    } + ", D4 reads plus explicitly gated experimental mutation (no USB device-ID)"@
}

/// The list of the printers, with the models that their identifiers hint at.
pub open spec fn candidates_report(
    candidates: Seq<NativeCandidate>,
    hints: Seq<Seq<Seq<char>>>,
    as_json: bool,
) -> Seq<char> {
    if as_json {
        json_text(
            Json::Object(
                Map::empty().insert("mode"@, Json::Text("read_only"@)).insert(
                    "candidates"@,
                    Json::List(
                        Seq::new(
                            candidates.len(),
                            |i: int| candidate_json(candidates[i], i, hints[i]),
                        ),
                    ),
                ),
            ),
        )
    } else if candidates.len() == 0 {
        "No present Windows stock-driver USBPRINT candidates."@
    } else {
        joined(Seq::new(candidates.len(), |i: int| candidate_line(candidates[i], i)), "\n"@)
    }
}

/// Each list of hints is that of the candidate in its place.
pub open spec fn candidate_hints(
    hints: Seq<Seq<Seq<char>>>,
    candidates: Seq<NativeCandidate>,
    database: Map<Seq<char>, SpecView>,
) -> bool {
    &&& hints.len() == candidates.len()
    &&& forall|i: int|
        0 <= i < candidates.len() ==> hints_for(
            #[trigger] hints[i],
            database,
            candidates[i].vendor_id,
            candidates[i].product_id,
        )
}

fn alias_of(index: usize) -> (alias: String)
    requires
        index < usize::MAX,
    ensures
        alias@ == native_alias(index as int),
{
    String::from_str("windows-native-").concat(dec((index + 1) as u64).as_str())
}

fn list_candidate(candidate: &NativeCandidate, index: usize, hints: &[String]) -> (value: Value)
    requires
        index < usize::MAX,
    ensures
        json_content(value) == candidate_json(*candidate, index as int, texts(hints@)),
{
    let interface = match candidate.interface_number {
        Some(number) => json_number(number as u64),
        None => json_null(),
    };
    let capabilities = json_with(
        json_object(),
        "d4_read",
        json_truth(candidate.capabilities.d4_read),
    );
    let capabilities = json_with(
        capabilities,
        "usb_device_id",
        json_truth(candidate.capabilities.usb_device_id),
    );
    let capabilities = json_with(
        capabilities,
        "persistent_mutation",
        json_truth(candidate.capabilities.persistent_mutation),
    );
    let capabilities = json_with(
        capabilities,
        "experimental_mutation",
        json_truth(candidate.capabilities.experimental_mutation),
    );
    let object = json_with(json_object(), "alias", json_string(alias_of(index).as_str()));
    let object = json_with(object, "backend", json_string("windows_native_usbprint"));
    let object = json_with(
        object,
        "vendor_id",
        json_string(hex(candidate.vendor_id as u64, 4, false).as_str()),
    );
    let object = json_with(
        object,
        "product_id",
        json_string(hex(candidate.product_id as u64, 4, false).as_str()),
    );
    let object = json_with(object, "interface", interface);
    let object = json_with(object, "model_hints", json_texts(hints));
    json_with(object, "capabilities", capabilities)
}

fn describe_candidate(candidate: &NativeCandidate, index: usize) -> (line: String)
    requires
        index < usize::MAX,
    ensures
        line@ == candidate_line(*candidate, index as int),
{
    let interface = match candidate.interface_number {
        Some(number) => dec(number as u64),
        None => String::from_str("not reported"),
    };
    alias_of(index).concat(" — ").concat(hex(candidate.vendor_id as u64, 4, false).as_str()).concat(
        ":",
    ).concat(hex(candidate.product_id as u64, 4, false).as_str()).concat(", interface ").concat(
        interface.as_str(),
    ).concat(", D4 reads plus explicitly gated experimental mutation (no USB device-ID)")
}

/// Lists the printers behind the stock driver.
pub fn windows_native_candidates_output(
    database: &ModelDatabase,
    candidates: &[NativeCandidate],
    as_json: bool,
) -> (report: String)
    requires
        database.well_formed(),
    ensures
        exists|hints: Seq<Seq<Seq<char>>>| #[trigger]
            candidate_hints(hints, candidates@, database@) && report@ == candidates_report(
                candidates@,
                hints,
                as_json,
            ),
{
    let mut values: Vec<Value> = Vec::new();
    let mut lines: Vec<String> = Vec::new();
    let mut index: usize = 0;
    let ghost mut hints: Seq<Seq<Seq<char>>> = seq![];
    while index < candidates.len()
        invariant
            database.well_formed(),
            index <= candidates.len(),
            values@.len() == index,
            candidate_hints(hints, candidates@.take(index as int), database@),
            json_contents(values@) == Seq::new(
                index as nat,
                |i: int| candidate_json(candidates@[i], i, hints[i]),
            ),
            texts(lines@) == Seq::new(index as nat, |i: int| candidate_line(candidates@[i], i)),
        decreases candidates.len() - index,
    {
        let candidate = &candidates[index];
        let names = model_hints_for_usb_candidate(
            database,
            candidate.vendor_id,
            candidate.product_id,
        );
        let value = list_candidate(candidate, index, names.as_slice());
        let ghost earlier = values@;
        values.push(value);
        push_field(&mut lines, describe_candidate(candidate, index));
        proof {
            let before = hints;
            hints = hints.push(texts(names@));
            assert forall|i: int| 0 <= i < index + 1 implies hints_for(
                #[trigger] hints[i],
                database@,
                candidates@.take(index + 1)[i].vendor_id,
                candidates@.take(index + 1)[i].product_id,
            ) by {
                if i < index {
                    assert(hints[i] == before[i]);
                    assert(candidates@.take(index as int)[i] == candidates@[i]);
                }
            }
            assert(json_contents(values@) =~= Seq::new(
                (index + 1) as nat,
                |i: int| candidate_json(candidates@[i], i, hints[i]),
            )) by {
                assert(json_contents(values@) =~= json_contents(earlier).push(
                    json_content(value),
                ));
                assert forall|i: int| 0 <= i < index implies hints[i] == #[trigger] before[i] by {
                }
            }
            assert(texts(lines@) =~= Seq::new(
                (index + 1) as nat,
                |i: int| candidate_line(candidates@[i], i),
            ));
        }
        index = index + 1;
    }
    proof {
        assert(candidates@.take(index as int) =~= candidates@);
    }
    if as_json {
        let object = json_with(json_object(), "mode", json_string("read_only"));
        json_to_text(&json_with(object, "candidates", json_list(values)))
    } else if candidates.len() == 0 {
        String::from_str("No present Windows stock-driver USBPRINT candidates.")
    } else {
        join(lines.as_slice(), "\n")
    }
}

/// The report on the identity of a printer behind the stock driver.
pub open spec fn native_identity_report(identity: IdentityView, as_json: bool) -> Seq<char> {
    let manufacturer = field_of_identity(identity, "MFG"@);
    let model = field_of_identity(identity, "MDL"@);
    if as_json {
        json_text(
            Json::Object(
                Map::empty().insert("backend"@, Json::Text("windows_native_usbprint"@)).insert(
                    "manufacturer"@,
                    optional_text(manufacturer),
                ).insert("model"@, optional_text(model)).insert(
                    "detected_model"@,
                    optional_text(detected_model_of(identity)),
                ).insert("command_set"@, text_list(identity.command_set)),
            ),
        )
    } else {
        "Backend: Windows native USBPRINT (read-only)\nManufacturer: "@ + or_words(
            manufacturer,
            "unknown"@,
        ) + "\nModel: "@ + or_words(model, "unknown"@) + "\nCommand set: "@ + joined(
            identity.command_set,
            ", "@,
        )
    }
}

/// Reports the identity of a printer behind the stock driver.
pub fn windows_native_identity_output(identity: &PrinterIdentity, as_json: bool) -> (report: String)
    requires
        identity.well_formed(),
    ensures
        report@ == native_identity_report(identity@, as_json),
{
    let manufacturer: Option<&str> = match identity.manufacturer() {
        Some(name) => Some(name.as_str()),
        None => None,
    };
    let model: Option<&str> = match identity.model() {
        Some(name) => Some(name.as_str()),
        None => None,
    };
    let command_set = identity.command_set();
    if as_json {
        let detected = identity.detected_model();
        let detected_text: Option<&str> = match &detected {
            Some(name) => Some(name.as_str()),
            None => None,
        };
        let object = json_with(
            json_object(),
            "backend",
            json_string("windows_native_usbprint"),
        );
        let object = json_with(object, "manufacturer", json_optional(manufacturer));
        let object = json_with(object, "model", json_optional(model));
        let object = json_with(object, "detected_model", json_optional(detected_text));
        let object = json_with(object, "command_set", json_texts(command_set.as_slice()));
        json_to_text(&object)
    } else {
        let manufacturer_words: &str = match manufacturer {
            Some(name) => name,
            None => "unknown",
        };
        let model_words: &str = match model {
            Some(name) => name,
            None => "unknown",
        };
        String::from_str("Backend: Windows native USBPRINT (read-only)\nManufacturer: ").concat(
            manufacturer_words,
        ).concat("\nModel: ").concat(model_words).concat("\nCommand set: ").concat(
            join(command_set.as_slice(), ", ").as_str(),
        )
    }
}

/// The report on an image that has been read through the stock driver.
pub open spec fn native_dump_report(
    image: ImageView,
    output_file: Seq<char>,
    as_json: bool,
) -> Seq<char> {
    if as_json {
        json_text(
            Json::Object(
                Map::empty().insert("mode"@, Json::Text("read_only"@)).insert(
                    "backend"@,
                    Json::Text("windows_native_usbprint"@),
                ).insert("model"@, Json::Text(image.model)).insert(
                    "start_address"@,
                    Json::Text(hex_text(image.start_address as nat, 4, true)),
                ).insert(
                    "end_address"@,
                    Json::Text(
                        hex_text(
                            last_address(image.start_address, image.bytes.len()) as nat,
                            4,
                            true,
                        ),
                    ),
                ).insert("byte_count"@, Json::Number(image.bytes.len())).insert(
                    "output_file"@,
                    Json::Text(output_file),
                ),
            ),
        )
    } else {
        "Saved "@ + dec_text(image.bytes.len())
            + "-byte read-only Windows stock-driver EEPROM image for "@ + image.model + " to "@
            + output_file
    }
}

/// Reports an image that has been read through the stock driver.
pub fn windows_native_eeprom_dump_output(
    image: &EepromImage,
    output_file: &str,
    as_json: bool,
) -> (report: String)
    ensures
        report@ == native_dump_report(image@, output_file@, as_json),
{
    if as_json {
        let object = json_with(json_object(), "mode", json_string("read_only"));
        let object = json_with(object, "backend", json_string("windows_native_usbprint"));
        let object = json_with(object, "model", json_string(image.model.as_str()));
        let object = json_with(
            object,
            "start_address",
            json_string(hex(image.start_address as u64, 4, true).as_str()),
        );
        let object = json_with(
            object,
            "end_address",
            json_string(hex(image.end_address() as u64, 4, true).as_str()),
        );
        let object = json_with(object, "byte_count", json_number(image.bytes.len() as u64));
        let object = json_with(object, "output_file", json_string(output_file));
        json_to_text(&object)
    } else {
        String::from_str("Saved ").concat(dec(image.bytes.len() as u64).as_str()).concat(
            "-byte read-only Windows stock-driver EEPROM image for ",
        ).concat(image.model.as_str()).concat(" to ").concat(output_file)
    }
}

/// The report on a mutation through the stock driver.
pub open spec fn native_mutation_report(
    operation: Seq<char>,
    model: Seq<char>,
    update_count: nat,
    backup_file: Seq<char>,
    as_json: bool,
) -> Seq<char> {
    if as_json {
        json_text(
            Json::Object(
                Map::empty().insert("backend"@, Json::Text("windows_native_usbprint"@)).insert(
                    "experimental_unvalidated"@,
                    Json::Truth(true),
                ).insert("operation"@, Json::Text(operation)).insert(
                    "model"@,
                    Json::Text(model),
                ).insert("byte_count"@, Json::Number(update_count)).insert(
                    "backup_file"@,
                    Json::Text(backup_file),
                ),
            ),
        )
    } else {
        "Experimental/unvalidated Windows native USBPRINT EEPROM "@ + operation
            + " completed for "@ + model + ": "@ + dec_text(update_count)
            + " byte(s); backup_file: "@ + backup_file
    }
}

/// Reports a mutation through the stock driver.
pub fn windows_native_experimental_mutation_output(
    operation: &str,
    model: &str,
    update_count: usize,
    backup_file: &str,
    as_json: bool,
) -> (report: String)
    ensures
        report@ == native_mutation_report(
            operation@,
            model@,
            update_count as nat,
            backup_file@,
            as_json,
        ),
{
    if as_json {
        let object = json_with(
            json_object(),
            "backend",
            json_string("windows_native_usbprint"),
        );
        let object = json_with(object, "experimental_unvalidated", json_truth(true));
        let object = json_with(object, "operation", json_string(operation));
        let object = json_with(object, "model", json_string(model));
        let object = json_with(object, "byte_count", json_number(update_count as u64));
        let object = json_with(object, "backup_file", json_string(backup_file));
        json_to_text(&object)
    } else {
        String::from_str("Experimental/unvalidated Windows native USBPRINT EEPROM ").concat(
            operation,
        ).concat(" completed for ").concat(model).concat(": ").concat(
            dec(update_count as u64).as_str(),
        ).concat(" byte(s); backup_file: ").concat(backup_file)
    }
}

/// The words with which a stage of the cleanup failed, if it did.
pub open spec fn cleanup_failure(status: CleanupView) -> Option<Seq<char>> {
    match status {
        CleanupView::Failed(message) => Some(message),
        _ => None,
    }
}

fn failure_in(status: UsbCleanupStatus) -> (failure: Option<String>)
    ensures
        string_text(failure) == cleanup_failure(status@),
{
    match status {
        UsbCleanupStatus::Failed(message) => Some(message),
        UsbCleanupStatus::Succeeded => None,
        UsbCleanupStatus::NotAttempted => None,
    }
}

/// Finishes an operation through the stock driver: its value counts only if no
/// stage of the cleanup failed, and otherwise all failures are told.
pub fn finish_windows_native_operation<R>(outcome: SelectedUsbSessionOutcome<R>) -> (result: Result<
    R,
    String,
>)
    ensures
        ({
            let shutdown = cleanup_failure(outcome.cleanup.d4_shutdown@);
            let close = cleanup_failure(outcome.cleanup.usb_close@);
            match result {
                Ok(value) => outcome.operation == Ok::<R, String>(value) && shutdown is None
                    && close is None,
                Err(message) => {
                    &&& outcome.operation is Err || shutdown is Some || close is Some
                    &&& message@ == joined(
                        operation_failures(
                            failure_of(outcome.operation),
                            shutdown,
                            close,
                            "Windows stock-driver transport close failed: "@,
                        ),
                        "; "@,
                    )
                },
            }
        }),
{
    finish_usb_operation(
        outcome.operation,
        failure_in(outcome.cleanup.d4_shutdown),
        failure_in(outcome.cleanup.usb_close),
        "Windows stock-driver transport close failed: ",
    )
}

/// The place at which the field of an identity that holds a byte begins: behind
/// the last semicolon before it.
pub open spec fn field_start(bytes: Seq<u8>, index: int) -> int
    decreases index,
{
    if index <= 0 {
        0
    } else if bytes[index - 1] == 0x3b {
        index
    } else {
        field_start(bytes, index - 1)
    }
}

/// A field begins with the name of the serial number.
pub open spec fn names_serial(bytes: Seq<u8>, start: int) -> bool {
    bytes[start] == 0x53 && bytes[start + 1] == 0x4e && bytes[start + 2] == 0x3a
}

/// A byte belongs to the value of a serial number.
pub open spec fn serial_byte(bytes: Seq<u8>, index: int) -> bool {
    let start = field_start(bytes, index);
    bytes[index] != 0x3b && start + 3 <= index && names_serial(bytes, start)
}

/// Bytes without the values of serial numbers, which are covered one for one.
pub open spec fn without_serials(bytes: Seq<u8>) -> Seq<u8> {
    Seq::new(
        bytes.len(),
        |i: int|
            if serial_byte(bytes, i) {
                0x58u8
            } else {
                bytes[i]
            },
    )
}

proof fn lemma_field_start(bytes: Seq<u8>, index: int)
    requires
        0 <= index <= bytes.len(),
    ensures
        0 <= field_start(bytes, index) <= index,
    decreases index,
{
    if index > 0 && bytes[index - 1] != 0x3b {
        lemma_field_start(bytes, index - 1);
    }
}

/// Covers the values of serial numbers in the text of an identity.
pub fn redact_identity_serials(bytes: &[u8]) -> (redacted: Vec<u8>)
    ensures
        redacted@ == without_serials(bytes@),
{
    let mut redacted: Vec<u8> = Vec::new();
    let mut start: usize = 0;
    while redacted.len() < bytes.len()
        invariant
            redacted@.len() <= bytes@.len(),
            start == field_start(bytes@, redacted@.len() as int),
            start <= redacted@.len(),
            redacted@ == without_serials(bytes@).take(redacted@.len() as int),
        decreases bytes.len() - redacted.len(),
    {
        let index: usize = redacted.len();
        let byte: u8 = bytes[index];
        let hidden: bool = byte != 0x3b && index - start >= 3 && bytes[start] == 0x53
            && bytes[start + 1] == 0x4e && bytes[start + 2] == 0x3a;
        let ghost before = redacted@;
        if hidden {
            redacted.push(0x58);
        } else {
            redacted.push(byte);
        }
        if byte == 0x3b {
            start = index + 1;
        }
        proof {
            let all = without_serials(bytes@);
            assert(all.take(index + 1) =~= all.take(index as int).push(all[index as int]));
        }
    }
    proof {
        let all = without_serials(bytes@);
        assert(all.take(bytes@.len() as int) =~= all);
    }
    redacted
}

/// The bytes that have been received, one transfer after another.
pub open spec fn received(events: Seq<TransportEvent>) -> Seq<u8>
    decreases events.len(),
{
    if events.len() == 0 {
        seq![]
    } else {
        match events.last() {
            TransportEvent::Rx(bytes) => received(events.drop_last()) + bytes@,
            TransportEvent::Tx(_) => received(events.drop_last()),
        }
    }
}

/// An event of the same direction and length, which if it was sent has the same
/// bytes.
pub open spec fn same_shape(left: TransportEvent, right: TransportEvent) -> bool {
    match (left, right) {
        (TransportEvent::Tx(left), TransportEvent::Tx(right)) => left@ == right@,
        (TransportEvent::Rx(left), TransportEvent::Rx(right)) => left@.len() == right@.len(),
        _ => false,
    }
}

proof fn lemma_received(events: Seq<TransportEvent>, count: int)
    requires
        0 <= count <= events.len(),
    ensures
        received(events.take(count)).len() <= received(events).len(),
    decreases events.len(),
{
    if count < events.len() {
        assert(events.drop_last().take(count) =~= events.take(count));
        lemma_received(events.drop_last(), count);
    } else {
        assert(events.take(count) =~= events);
    }
}

fn collect_received(events: &[TransportEvent]) -> (bytes: Vec<u8>)
    ensures
        bytes@ == received(events@),
{
    let mut bytes: Vec<u8> = Vec::new();
    let mut index: usize = 0;
    proof {
        assert(events@.take(0) =~= seq![]);
    }
    while index < events.len()
        invariant
            index <= events@.len(),
            bytes@ == received(events@.take(index as int)),
        decreases events.len() - index,
    {
        proof {
            let longer = events@.take(index + 1);
            assert(longer.drop_last() =~= events@.take(index as int));
            assert(longer.last() == events@[index as int]);
        }
        match &events[index] {
            TransportEvent::Rx(part) => bytes.extend_from_slice(part.as_slice()),
            TransportEvent::Tx(_) => {},
        }
        index = index + 1;
    }
    proof {
        assert(events@.take(index as int) =~= events@);
    }
    bytes
}

/// Covers the values of serial numbers in what has been received, also where a
/// value goes over from one transfer to the next.
pub fn redact_native_identity_serials(events: Vec<TransportEvent>) -> (redacted: Vec<
    TransportEvent,
>)
    ensures
        redacted@.len() == events@.len(),
        forall|i: int|
            0 <= i < events@.len() ==> same_shape(events@[i], #[trigger] redacted@[i]),
        received(redacted@) == without_serials(received(events@)),
{
    let bytes = collect_received(events.as_slice());
    let covered = redact_identity_serials(bytes.as_slice());
    let total: usize = covered.len();
    let mut redacted: Vec<TransportEvent> = Vec::new();
    let mut index: usize = 0;
    let mut offset: usize = 0;
    proof {
        assert(events@.take(0) =~= seq![]);
        assert(covered@.take(0) =~= seq![]);
        assert(received(redacted@) =~= seq![]);
    }
    while index < events.len()
        invariant
            index <= events@.len(),
            redacted@.len() == index,
            covered@.len() == received(events@).len(),
            total == covered@.len(),
            offset == received(events@.take(index as int)).len(),
            offset <= covered@.len(),
            received(redacted@) == covered@.take(offset as int),
            forall|i: int|
                0 <= i < index ==> same_shape(events@[i], #[trigger] redacted@[i]),
        decreases events.len() - index,
    {
        let ghost before = redacted@;
        proof {
            let longer = events@.take(index + 1);
            assert(longer.drop_last() =~= events@.take(index as int));
            assert(longer.last() == events@[index as int]);
            lemma_received(events@, index + 1);
        }
        match &events[index] {
            TransportEvent::Tx(sent) => {
                redacted.push(TransportEvent::Tx(vstd::slice::slice_to_vec(sent.as_slice())));
                proof {
                    assert(redacted@.drop_last() =~= before);
                }
            },
            TransportEvent::Rx(part) => {
                let end: usize = offset + part.len();
                let piece = vstd::slice::slice_to_vec(
                    vstd::slice::slice_subrange(covered.as_slice(), offset, end),
                );
                let ghost shown = piece@;
                redacted.push(TransportEvent::Rx(piece));
                proof {
                    assert(redacted@.drop_last() =~= before);
                    assert(covered@.take(offset as int) + shown =~= covered@.take(end as int));
                }
                offset = end;
            },
        }
        index = index + 1;
    }
    proof {
        assert(events@.take(index as int) =~= events@);
        assert(covered@.take(offset as int) =~= covered@);
    }
    redacted
}

/// Covering serial numbers leaves none to be covered: bytes that have been
/// covered once stay as they are.
pub proof fn covering_serials_twice_changes_nothing(bytes: Seq<u8>)
    ensures
        without_serials(without_serials(bytes)) == without_serials(bytes),
{
    let once = without_serials(bytes);
    assert forall|i: int| 0 <= i < bytes.len() implies without_serials(once)[i]
        == #[trigger] once[i] by {
        lemma_covered_start(bytes, i);
        lemma_field_start(bytes, i);
        let start = field_start(bytes, i);
        if serial_byte(once, i) {
            lemma_covered_start(bytes, start);
            lemma_plain_name(bytes, start, i);
        }
    }
    assert(without_serials(once) =~= once);
}

proof fn lemma_covered_start(bytes: Seq<u8>, index: int)
    requires
        0 <= index <= bytes.len(),
    ensures
        field_start(without_serials(bytes), index) == field_start(bytes, index),
    decreases index,
{
    if index > 0 {
        lemma_covered_start(bytes, index - 1);
        let once = without_serials(bytes);
        assert((once[index - 1] == 0x3b) == (bytes[index - 1] == 0x3b));
    }
}

/// The name of a field is never covered.
proof fn lemma_plain_name(bytes: Seq<u8>, start: int, index: int)
    requires
        0 <= start,
        start + 3 <= index < bytes.len(),
        start == field_start(bytes, index),
    ensures
        without_serials(bytes)[start] == bytes[start],
        without_serials(bytes)[start + 1] == bytes[start + 1],
        without_serials(bytes)[start + 2] == bytes[start + 2],
{
    lemma_within_field(bytes, start, index);
    lemma_field_start_at(bytes, start, index);
    assert(field_start(bytes, start) <= start) by {
        lemma_field_start(bytes, start);
    }
}

/// No byte from the beginning of a field to one of its bytes is a semicolon.
proof fn lemma_within_field(bytes: Seq<u8>, start: int, index: int)
    requires
        0 <= start <= index < bytes.len(),
        start == field_start(bytes, index),
    ensures
        forall|j: int| start <= j < index ==> bytes[j] != 0x3b,
    decreases index,
{
    if start < index {
        if bytes[index - 1] != 0x3b {
            lemma_within_field(bytes, start, index - 1);
        }
    }
}

/// The bytes of a field have the same beginning.
proof fn lemma_field_start_at(bytes: Seq<u8>, start: int, index: int)
    requires
        0 <= start <= index < bytes.len(),
        start == field_start(bytes, index),
    ensures
        forall|j: int| start <= j <= index ==> #[trigger] field_start(bytes, j) == start,
    decreases index,
{
    if start < index {
        assert(bytes[index - 1] != 0x3b);
        lemma_field_start_at(bytes, start, index - 1);
    }
}

/// A stretch of an identity is the value of a serial number: a field that `SN:` begins,
/// up to the next semicolon or the end.
pub open spec fn serial_stands(bytes: Seq<u8>, start: int, end: int) -> bool {
    &&& 0 <= start
    &&& start + 3 <= end <= bytes.len()
    &&& start == 0 || bytes[start - 1] == 0x3b
    &&& bytes[start] == 0x53
    &&& bytes[start + 1] == 0x4e
    &&& bytes[start + 2] == 0x3a
    &&& forall|i: int| start <= i < end ==> #[trigger] bytes[i] != 0x3b
}

proof fn lemma_start_of_field(bytes: Seq<u8>, start: int, index: int)
    requires
        0 <= start <= index <= bytes.len(),
        start == 0 || bytes[start - 1] == 0x3b,
        forall|i: int| start <= i < index ==> #[trigger] bytes[i] != 0x3b,
    ensures
        field_start(bytes, index) == start,
    decreases index,
{
    if index > start {
        assert(bytes[index - 1] != 0x3b);
        lemma_start_of_field(bytes, start, index - 1);
    }
}

proof fn lemma_before_field(bytes: Seq<u8>, index: int)
    requires
        0 <= index <= bytes.len(),
    ensures
        0 <= field_start(bytes, index) <= index,
        field_start(bytes, index) == 0 || bytes[field_start(bytes, index) - 1] == 0x3b,
        forall|i: int| field_start(bytes, index) <= i < index ==> #[trigger] bytes[i] != 0x3b,
    decreases index,
{
    if index > 0 && bytes[index - 1] != 0x3b {
        lemma_before_field(bytes, index - 1);
    }
}

/// Every character of a serial number is covered, and nothing else is changed.
pub proof fn serials_are_covered(bytes: Seq<u8>, start: int, end: int, index: int)
    requires
        0 <= index < bytes.len(),
    ensures
        without_serials(bytes).len() == bytes.len(),
        serial_stands(bytes, start, end) && start + 3 <= index < end ==> without_serials(
            bytes,
        )[index] == 0x58,
        (forall|s: int, e: int| #[trigger]
            serial_stands(bytes, s, e) ==> !(s + 3 <= index < e)) ==> without_serials(bytes)[index]
            == bytes[index],
{
    if serial_stands(bytes, start, end) && start + 3 <= index < end {
        lemma_start_of_field(bytes, start, index);
    }
    if serial_byte(bytes, index) {
        lemma_before_field(bytes, index);
        let s = field_start(bytes, index);
        assert(serial_stands(bytes, s, index + 1));
    }
}

/// What was received is the bytes of the transfers that came in, one after the other;
/// what went out does not count.
pub proof fn only_arrivals_are_received(events: Seq<TransportEvent>, event: TransportEvent)
    ensures
        received(seq![]) == Seq::<u8>::empty(),
        event matches TransportEvent::Rx(bytes) ==> received(events.push(event)) == received(events)
            + bytes@,
        event is Tx ==> received(events.push(event)) == received(events),
{
    assert(events.push(event).drop_last() =~= events);
}

/// Printers behind the stock driver are listed in their order and counted from one, the
/// vendor of each before its product.
pub proof fn candidates_are_listed_in_order(
    candidates: Seq<NativeCandidate>,
    candidate: NativeCandidate,
    hints: Seq<Seq<Seq<char>>>,
    number: u8,
)
    requires
        candidate.interface_number == Some(number),
    ensures
        candidate_line(candidate, candidates.len() as int) == "windows-native-"@ + dec_text(
            candidates.len() + 1,
        ) + " — "@ + hex_text(candidate.vendor_id as nat, 4, false) + ":"@ + hex_text(
            candidate.product_id as nat,
            4,
            false,
        ) + ", interface "@ + dec_text(number as nat)
            + ", D4 reads plus explicitly gated experimental mutation (no USB device-ID)"@,
        candidates.len() > 0 ==> candidates_report(candidates.push(candidate), hints, false)
            == candidates_report(candidates, hints, false) + "\n"@ + candidate_line(
            candidate,
            candidates.len() as int,
        ),
        candidates.len() == 0 ==> candidates_report(candidates.push(candidate), hints, false)
            == candidate_line(candidate, 0),
{
    let longer = candidates.push(candidate);
    let lines = Seq::new(longer.len(), |i: int| candidate_line(longer[i], i));
    assert(lines.drop_last() =~= Seq::new(
        candidates.len(),
        |i: int| candidate_line(candidates[i], i),
    ));
    assert(lines.last() == candidate_line(candidate, candidates.len() as int));
}

proof fn lemma_members_differ()
    ensures
        "backend"@ != "backup_file"@,
        "backend"@ != "byte_count"@,
        "backend"@ != "command_set"@,
        "backend"@ != "detected_model"@,
        "backend"@ != "end_address"@,
        "backend"@ != "experimental_unvalidated"@,
        "backend"@ != "manufacturer"@,
        "backend"@ != "mode"@,
        "backend"@ != "model"@,
        "backend"@ != "operation"@,
        "backend"@ != "output_file"@,
        "backend"@ != "start_address"@,
        "backup_file"@ != "byte_count"@,
        "backup_file"@ != "command_set"@,
        "backup_file"@ != "detected_model"@,
        "backup_file"@ != "end_address"@,
        "backup_file"@ != "experimental_unvalidated"@,
        "backup_file"@ != "manufacturer"@,
        "backup_file"@ != "mode"@,
        "backup_file"@ != "model"@,
        "backup_file"@ != "operation"@,
        "backup_file"@ != "output_file"@,
        "backup_file"@ != "start_address"@,
        "byte_count"@ != "command_set"@,
        "byte_count"@ != "detected_model"@,
        "byte_count"@ != "end_address"@,
        "byte_count"@ != "experimental_unvalidated"@,
        "byte_count"@ != "manufacturer"@,
        "byte_count"@ != "mode"@,
        "byte_count"@ != "model"@,
        "byte_count"@ != "operation"@,
        "byte_count"@ != "output_file"@,
        "byte_count"@ != "start_address"@,
        "command_set"@ != "detected_model"@,
        "command_set"@ != "end_address"@,
        "command_set"@ != "experimental_unvalidated"@,
        "command_set"@ != "manufacturer"@,
        "command_set"@ != "mode"@,
        "command_set"@ != "model"@,
        "command_set"@ != "operation"@,
        "command_set"@ != "output_file"@,
        "command_set"@ != "start_address"@,
        "detected_model"@ != "end_address"@,
        "detected_model"@ != "experimental_unvalidated"@,
        "detected_model"@ != "manufacturer"@,
        "detected_model"@ != "mode"@,
        "detected_model"@ != "model"@,
        "detected_model"@ != "operation"@,
        "detected_model"@ != "output_file"@,
        "detected_model"@ != "start_address"@,
        "end_address"@ != "experimental_unvalidated"@,
        "end_address"@ != "manufacturer"@,
        "end_address"@ != "mode"@,
        "end_address"@ != "model"@,
        "end_address"@ != "operation"@,
        "end_address"@ != "output_file"@,
        "end_address"@ != "start_address"@,
        "experimental_unvalidated"@ != "manufacturer"@,
        "experimental_unvalidated"@ != "mode"@,
        "experimental_unvalidated"@ != "model"@,
        "experimental_unvalidated"@ != "operation"@,
        "experimental_unvalidated"@ != "output_file"@,
        "experimental_unvalidated"@ != "start_address"@,
        "manufacturer"@ != "mode"@,
        "manufacturer"@ != "model"@,
        "manufacturer"@ != "operation"@,
        "manufacturer"@ != "output_file"@,
        "manufacturer"@ != "start_address"@,
        "mode"@ != "model"@,
        "mode"@ != "operation"@,
        "mode"@ != "output_file"@,
        "mode"@ != "start_address"@,
        "model"@ != "operation"@,
        "model"@ != "output_file"@,
        "model"@ != "start_address"@,
        "operation"@ != "output_file"@,
        "operation"@ != "start_address"@,
        "output_file"@ != "start_address"@,
{
    reveal_strlit("backend");
    reveal_strlit("backup_file");
    reveal_strlit("byte_count");
    reveal_strlit("command_set");
    reveal_strlit("detected_model");
    reveal_strlit("end_address");
    reveal_strlit("experimental_unvalidated");
    reveal_strlit("manufacturer");
    reveal_strlit("mode");
    reveal_strlit("model");
    reveal_strlit("operation");
    reveal_strlit("output_file");
    reveal_strlit("start_address");
    assert("backend"@.len() != "backup_file"@.len());
    assert("backend"@.len() != "byte_count"@.len());
    assert("backend"@.len() != "command_set"@.len());
    assert("backend"@.len() != "detected_model"@.len());
    assert("backend"@.len() != "end_address"@.len());
    assert("backend"@.len() != "experimental_unvalidated"@.len());
    assert("backend"@.len() != "manufacturer"@.len());
    assert("backend"@.len() != "mode"@.len());
    assert("backend"@.len() != "model"@.len());
    assert("backend"@.len() != "operation"@.len());
    assert("backend"@.len() != "output_file"@.len());
    assert("backend"@.len() != "start_address"@.len());
    assert("backup_file"@.len() != "byte_count"@.len());
    assert("backup_file"@[0] != "command_set"@[0]);
    assert("backup_file"@.len() != "detected_model"@.len());
    assert("backup_file"@[0] != "end_address"@[0]);
    assert("backup_file"@.len() != "experimental_unvalidated"@.len());
    assert("backup_file"@.len() != "manufacturer"@.len());
    assert("backup_file"@.len() != "mode"@.len());
    assert("backup_file"@.len() != "model"@.len());
    assert("backup_file"@.len() != "operation"@.len());
    assert("backup_file"@[0] != "output_file"@[0]);
    assert("backup_file"@.len() != "start_address"@.len());
    assert("byte_count"@.len() != "command_set"@.len());
    assert("byte_count"@.len() != "detected_model"@.len());
    assert("byte_count"@.len() != "end_address"@.len());
    assert("byte_count"@.len() != "experimental_unvalidated"@.len());
    assert("byte_count"@.len() != "manufacturer"@.len());
    assert("byte_count"@.len() != "mode"@.len());
    assert("byte_count"@.len() != "model"@.len());
    assert("byte_count"@.len() != "operation"@.len());
    assert("byte_count"@.len() != "output_file"@.len());
    assert("byte_count"@.len() != "start_address"@.len());
    assert("command_set"@.len() != "detected_model"@.len());
    assert("command_set"@[0] != "end_address"@[0]);
    assert("command_set"@.len() != "experimental_unvalidated"@.len());
    assert("command_set"@.len() != "manufacturer"@.len());
    assert("command_set"@.len() != "mode"@.len());
    assert("command_set"@.len() != "model"@.len());
    assert("command_set"@.len() != "operation"@.len());
    assert("command_set"@[0] != "output_file"@[0]);
    assert("command_set"@.len() != "start_address"@.len());
    assert("detected_model"@.len() != "end_address"@.len());
    assert("detected_model"@.len() != "experimental_unvalidated"@.len());
    assert("detected_model"@.len() != "manufacturer"@.len());
    assert("detected_model"@.len() != "mode"@.len());
    assert("detected_model"@.len() != "model"@.len());
    assert("detected_model"@.len() != "operation"@.len());
    assert("detected_model"@.len() != "output_file"@.len());
    assert("detected_model"@.len() != "start_address"@.len());
    assert("end_address"@.len() != "experimental_unvalidated"@.len());
    assert("end_address"@.len() != "manufacturer"@.len());
    assert("end_address"@.len() != "mode"@.len());
    assert("end_address"@.len() != "model"@.len());
    assert("end_address"@.len() != "operation"@.len());
    assert("end_address"@[0] != "output_file"@[0]);
    assert("end_address"@.len() != "start_address"@.len());
    assert("experimental_unvalidated"@.len() != "manufacturer"@.len());
    assert("experimental_unvalidated"@.len() != "mode"@.len());
    assert("experimental_unvalidated"@.len() != "model"@.len());
    assert("experimental_unvalidated"@.len() != "operation"@.len());
    assert("experimental_unvalidated"@.len() != "output_file"@.len());
    assert("experimental_unvalidated"@.len() != "start_address"@.len());
    assert("manufacturer"@.len() != "mode"@.len());
    assert("manufacturer"@.len() != "model"@.len());
    assert("manufacturer"@.len() != "operation"@.len());
    assert("manufacturer"@.len() != "output_file"@.len());
    assert("manufacturer"@.len() != "start_address"@.len());
    assert("mode"@.len() != "model"@.len());
    assert("mode"@.len() != "operation"@.len());
    assert("mode"@.len() != "output_file"@.len());
    assert("mode"@.len() != "start_address"@.len());
    assert("model"@.len() != "operation"@.len());
    assert("model"@.len() != "output_file"@.len());
    assert("model"@.len() != "start_address"@.len());
    assert("operation"@.len() != "output_file"@.len());
    assert("operation"@.len() != "start_address"@.len());
    assert("output_file"@.len() != "start_address"@.len());
}

/// What is told of a printer behind the stock driver: its manufacturer and its model as the
/// printer gives them, the model that is looked up, and its languages in their order.
pub proof fn native_identities_are_described(
    identity: IdentityView,
    manufacturer: Seq<char>,
    model: Seq<char>,
)
    requires
        field_of_identity(identity, "MFG"@) == Some(manufacturer),
        field_of_identity(identity, "MDL"@) == Some(model),
    ensures
        native_identity_report(identity, false)
            == "Backend: Windows native USBPRINT (read-only)\nManufacturer: "@ + manufacturer
            + "\nModel: "@ + model + "\nCommand set: "@ + joined(identity.command_set, ", "@),
        exists|members: Map<Seq<char>, Json>| #[trigger]
            tells(native_identity_report(identity, true), members) && members["manufacturer"@]
                == Json::Text(manufacturer) && members["model"@] == Json::Text(model) && (
            detected_model_of(identity) matches Some(detected) ==> members["detected_model"@]
                == Json::Text(detected)) && (members["command_set"@] matches Json::List(items)
                && items.len() == identity.command_set.len() && forall|i: int|
                0 <= i < items.len() ==> #[trigger] items[i] == Json::Text(
                    identity.command_set[i],
                )),
{
    lemma_members_differ();
    let members = Map::<Seq<char>, Json>::empty().insert(
        "backend"@,
        Json::Text("windows_native_usbprint"@),
    ).insert("manufacturer"@, optional_text(Some(manufacturer))).insert(
        "model"@,
        optional_text(Some(model)),
    ).insert("detected_model"@, optional_text(detected_model_of(identity))).insert(
        "command_set"@,
        text_list(identity.command_set),
    );
    assert(tells(native_identity_report(identity, true), members));
}

/// What is told of an image that was read, and of a mutation that was made, through the
/// stock driver.
pub proof fn native_results_are_described(
    image: ImageView,
    output_file: Seq<char>,
    operation: Seq<char>,
    model: Seq<char>,
    update_count: nat,
    backup_file: Seq<char>,
)
    requires
        image.bytes.len() > 0,
        image.start_address + image.bytes.len() <= 65536,
    ensures
        native_dump_report(image, output_file, false) == "Saved "@ + dec_text(image.bytes.len())
            + "-byte read-only Windows stock-driver EEPROM image for "@ + image.model + " to "@
            + output_file,
        exists|members: Map<Seq<char>, Json>| #[trigger]
            tells(native_dump_report(image, output_file, true), members) && members["model"@]
                == Json::Text(image.model) && members["start_address"@] == Json::Text(
                hex_text(image.start_address as nat, 4, true),
            ) && members["end_address"@] == Json::Text(
                hex_text((image.start_address + image.bytes.len() - 1) as nat, 4, true),
            ) && members["byte_count"@] == Json::Number(image.bytes.len())
                && members["output_file"@] == Json::Text(output_file),
        native_mutation_report(operation, model, update_count, backup_file, false)
            == "Experimental/unvalidated Windows native USBPRINT EEPROM "@ + operation
            + " completed for "@ + model + ": "@ + dec_text(update_count)
            + " byte(s); backup_file: "@ + backup_file,
        exists|members: Map<Seq<char>, Json>| #[trigger]
            tells(
                native_mutation_report(operation, model, update_count, backup_file, true),
                members,
            ) && members["operation"@] == Json::Text(operation) && members["model"@] == Json::Text(
                model,
            ) && members["byte_count"@] == Json::Number(update_count) && members["backup_file"@]
                == Json::Text(backup_file),
{
    lemma_members_differ();
    let last = last_address(image.start_address, image.bytes.len());
    assert(last == image.start_address + image.bytes.len() - 1);
    let saved = Map::<Seq<char>, Json>::empty().insert("mode"@, Json::Text("read_only"@)).insert(
        "backend"@,
        Json::Text("windows_native_usbprint"@),
    ).insert("model"@, Json::Text(image.model)).insert(
        "start_address"@,
        Json::Text(hex_text(image.start_address as nat, 4, true)),
    ).insert("end_address"@, Json::Text(hex_text(last as nat, 4, true))).insert(
        "byte_count"@,
        Json::Number(image.bytes.len()),
    ).insert("output_file"@, Json::Text(output_file));
    assert(tells(native_dump_report(image, output_file, true), saved));
    let made = Map::<Seq<char>, Json>::empty().insert(
        "backend"@,
        Json::Text("windows_native_usbprint"@),
    ).insert("experimental_unvalidated"@, Json::Truth(true)).insert(
        "operation"@,
        Json::Text(operation),
    ).insert("model"@, Json::Text(model)).insert("byte_count"@, Json::Number(update_count)).insert(
        "backup_file"@,
        Json::Text(backup_file),
    );
    assert(tells(
        native_mutation_report(operation, model, update_count, backup_file, true),
        made,
    ));
}

} // verus!
