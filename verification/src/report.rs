//! What commands print, as text or as JSON.
use crate::arguments::{selected_target, CounterResetSelection};
use crate::command::EepromReadReply;
use crate::database::ModelDatabase;
use crate::discovery::{device_views, DeviceLocation, DeviceView, DiscoveredDevice, LocationView};
use crate::epson::{operation_views, target_name, EpsonSpec, OperationView, SpecView};
use crate::fields::{hex_encode, hex_run_text, join, joined, push_field, push_pair};
use crate::identity::{
    detected_model_of, identity_error_text, identity_of, IdentityView, PrinterIdentity,
};
use crate::json::{
    json_content, json_contents, json_list, json_null, json_number, json_object, json_optional,
    json_string, json_text, json_texts, json_to_text, json_with, optional_text, text_list, Json,
};
use crate::scan::{escape_text, escaped_text};
use crate::session::{
    application_error_text, end_of_range, last_address, ApplicationError,
    EpsonD4EntryProbeResult,
};
use crate::text::{dec, dec_text, hex, hex_lower, hex_text, prefixed_hex, text_from_utf8};
use crate::text_map::{ascending, texts, TextMap};
use serde_json::Value;
use vstd::prelude::*;
use vstd::utf8::{decode_utf8, valid_utf8};

verus! {

/// The text of a status response, if it is UTF-8.
pub open spec fn status_text(status: Seq<u8>) -> Option<Seq<char>> {
    if valid_utf8(status) {
        Some(decode_utf8(status))
    } else {
        None
    }
}

/// The report on a status response.
pub open spec fn status_report(model: Seq<char>, status: Seq<u8>, as_json: bool) -> Seq<char> {
    if as_json {
        json_text(
            Json::Object(
                Map::empty().insert("mode"@, Json::Text("read_only"@)).insert(
                    "model"@,
                    Json::Text(model),
                ).insert("status_text"@, optional_text(status_text(status))).insert(
                    "status_hex"@,
                    Json::Text(hex_run_text(status)),
                ),
            ),
        )
    } else {
        "model: "@ + model + "\nstatus: "@ + match status_text(status) {
            Some(text) => escaped_text(text),
            None => "unavailable (non-UTF-8 response)"@,
        } + "\nstatus-hex: "@ + hex_run_text(status)
    }
}

/// Reports a status response, without control characters in the text.
pub fn render_printer_status(model: &str, status: &[u8], as_json: bool) -> (report: String)
    ensures
        report@ == status_report(model@, status@, as_json),
{
    let text = text_from_utf8(status);
    let digits = hex_encode(status);
    if as_json {
        let shown: Option<&str> = match &text {
            Some(text) => Some(text.as_str()),
            None => None,
        };
        let object = json_with(json_object(), "mode", json_string("read_only"));
        let object = json_with(object, "model", json_string(model));
        let object = json_with(object, "status_text", json_optional(shown));
        let object = json_with(object, "status_hex", json_string(digits.as_str()));
        json_to_text(&object)
    } else {
        let escaped = match &text {
            Some(text) => escape_text(text.as_str()),
            None => String::from_str("unavailable (non-UTF-8 response)"),
        };
        String::from_str("model: ").concat(model).concat("\nstatus: ").concat(
            escaped.as_str(),
        ).concat("\nstatus-hex: ").concat(digits.as_str())
    }
}

/// The JSON object for a reading.
pub open spec fn reading_json(reply: EepromReadReply) -> Json {
    Json::Object(
        Map::empty().insert("address"@, Json::Text(hex_text(reply.address as nat, 4, true))).insert(
            "value"@,
            Json::Text(hex_text(reply.value as nat, 2, true)),
        ),
    )
}

/// The line for a reading.
pub open spec fn reading_line(reply: EepromReadReply) -> Seq<char> {
    prefixed_hex(reply.address as nat, 4) + ": "@ + prefixed_hex(reply.value as nat, 2)
}

/// The report on readings.
pub open spec fn readings_report(
    model: Seq<char>,
    replies: Seq<EepromReadReply>,
    as_json: bool,
) -> Seq<char> {
    if as_json {
        json_text(
            Json::Object(
                Map::empty().insert("mode"@, Json::Text("read_only"@)).insert(
                    "model"@,
                    Json::Text(model),
                ).insert(
                    "eeprom"@,
                    Json::List(Seq::new(replies.len(), |i: int| reading_json(replies[i]))),
                ),
            ),
        )
    } else {
        "model: "@ + model + "\n"@ + joined(
            Seq::new(replies.len(), |i: int| reading_line(replies[i])),
            "\n"@,
        )
    }
}

/// Reports readings.
pub fn render_eeprom_readings(model: &str, replies: &[EepromReadReply], as_json: bool) -> (report:
    String)
    ensures
        report@ == readings_report(model@, replies@, as_json),
{
    if as_json {
        let mut values: Vec<Value> = Vec::new();
        while values.len() < replies.len()
            invariant
                values@.len() <= replies@.len(),
                forall|i: int|
                    0 <= i < values@.len() ==> json_content(#[trigger] values@[i]) == reading_json(
                        replies@[i],
                    ),
            decreases replies.len() - values.len(),
        {
            let index: usize = values.len();
            let object = json_with(
                json_object(),
                "address",
                json_string(hex(replies[index].address as u64, 4, true).as_str()),
            );
            values.push(
                json_with(
                    object,
                    "value",
                    json_string(hex(replies[index].value as u64, 2, true).as_str()),
                ),
            );
        }
        proof {
            assert(json_contents(values@) =~= Seq::new(
                replies@.len(),
                |i: int| reading_json(replies@[i]),
            ));
        }
        let object = json_with(json_object(), "mode", json_string("read_only"));
        let object = json_with(object, "model", json_string(model));
        let object = json_with(object, "eeprom", json_list(values));
        return json_to_text(&object);
    }
    let mut lines: Vec<String> = Vec::new();
    let ghost expected = Seq::new(replies@.len(), |i: int| reading_line(replies@[i]));
    while lines.len() < replies.len()
        invariant
            lines@.len() <= replies@.len(),
            expected == Seq::new(replies@.len(), |i: int| reading_line(replies@[i])),
            texts(lines@) == expected.take(lines@.len() as int),
        decreases replies.len() - lines.len(),
    {
        let index: usize = lines.len();
        push_field(
            &mut lines,
            hex_lower(replies[index].address as u64, 4).concat(": ").concat(
                hex_lower(replies[index].value as u64, 2).as_str(),
            ),
        );
    }
    proof {
        assert(texts(lines@) =~= expected);
    }
    String::from_str("model: ").concat(model).concat("\n").concat(
        join(lines.as_slice(), "\n").as_str(),
    )
}

/// The report on a saved image.
pub open spec fn dump_report(
    model: Seq<char>,
    start_address: u16,
    byte_count: nat,
    output_file: Seq<char>,
    as_json: bool,
) -> Seq<char> {
    let end_address = last_address(start_address, byte_count);
    if as_json {
        json_text(
            Json::Object(
                Map::empty().insert("mode"@, Json::Text("read_only"@)).insert(
                    "model"@,
                    Json::Text(model),
                ).insert(
                    "start_address"@,
                    Json::Text(hex_text(start_address as nat, 4, true)),
                ).insert("end_address"@, Json::Text(hex_text(end_address as nat, 4, true))).insert(
                    "byte_count"@,
                    Json::Number(byte_count),
                ).insert("output_file"@, Json::Text(output_file)),
            ),
        )
    } else {
        "Saved "@ + dec_text(byte_count) + "-byte EEPROM image for "@ + model + " ("@
            + prefixed_hex(start_address as nat, 4) + "..="@ + prefixed_hex(end_address as nat, 4)
            + ") to "@ + output_file
    }
}

/// Reports a saved image.
pub fn render_eeprom_dump(
    model: &str,
    start_address: u16,
    byte_count: usize,
    output_file: &str,
    as_json: bool,
) -> (report: String)
    ensures
        report@ == dump_report(model@, start_address, byte_count as nat, output_file@, as_json),
{
    let end_address: u16 = end_of_range(start_address, byte_count);
    if as_json {
        let object = json_with(json_object(), "mode", json_string("read_only"));
        let object = json_with(object, "model", json_string(model));
        let object = json_with(
            object,
            "start_address",
            json_string(hex(start_address as u64, 4, true).as_str()),
        );
        let object = json_with(
            object,
            "end_address",
            json_string(hex(end_address as u64, 4, true).as_str()),
        );
        let object = json_with(object, "byte_count", json_number(byte_count as u64));
        let object = json_with(object, "output_file", json_string(output_file));
        json_to_text(&object)
    } else {
        String::from_str("Saved ").concat(dec(byte_count as u64).as_str()).concat(
            "-byte EEPROM image for ",
        ).concat(model).concat(" (").concat(hex_lower(start_address as u64, 4).as_str()).concat(
            "..=",
        ).concat(hex_lower(end_address as u64, 4).as_str()).concat(") to ").concat(output_file)
    }
}

/// The report on a probe of the Epson entry exchange.
pub open spec fn probe_report(result: EpsonD4EntryProbeResult, as_json: bool) -> Seq<char> {
    let (status, received) = match result {
        EpsonD4EntryProbeResult::Recognized => ("recognized"@, None::<nat>),
        EpsonD4EntryProbeResult::Unrecognized { received_bytes } => (
            "unrecognized"@,
            Some(received_bytes as nat),
        ),
    };
    if as_json {
        json_text(
            Json::Object(
                Map::empty().insert("d4_entry"@, Json::Text(status)).insert(
                    "received_bytes"@,
                    match received {
                        Some(count) => Json::Number(count),
                        None => Json::Null,
                    },
                ),
            ),
        )
    } else {
        match received {
            Some(count) => "D4 entry reply: "@ + status + " ("@ + dec_text(count)
                + " bytes received)"@,
            None => "D4 entry reply: "@ + status,
        }
    }
}

/// Reports a probe of the Epson entry exchange.
pub fn render_probe(result: EpsonD4EntryProbeResult, as_json: bool) -> (report: String)
    ensures
        report@ == probe_report(result, as_json),
{
    let (status, received): (&'static str, Option<usize>) = match result {
        EpsonD4EntryProbeResult::Recognized => ("recognized", None),
        EpsonD4EntryProbeResult::Unrecognized { received_bytes } => (
            "unrecognized",
            Some(received_bytes),
        ),
    };
    if as_json {
        let count = match received {
            Some(count) => json_number(count as u64),
            None => json_null(),
        };
        let object = json_with(json_object(), "d4_entry", json_string(status));
        let object = json_with(object, "received_bytes", count);
        json_to_text(&object)
    } else {
        match received {
            Some(count) => String::from_str("D4 entry reply: ").concat(status).concat(
                " (",
            ).concat(dec(count as u64).as_str()).concat(" bytes received)"),
            None => String::from_str("D4 entry reply: ").concat(status),
        }
    }
}

/// The report on a counter reset.
pub open spec fn reset_report(
    model: Seq<char>,
    selection: CounterResetSelection,
    byte_count: nat,
    backup_file: Seq<char>,
    as_json: bool,
) -> Seq<char> {
    let target = target_name(selected_target(selection));
    if as_json {
        json_text(
            Json::Object(
                Map::empty().insert("operation"@, Json::Text("declared_counter_reset"@)).insert(
                    "model"@,
                    Json::Text(model),
                ).insert("target"@, Json::Text(target)).insert(
                    "byte_count"@,
                    Json::Number(byte_count),
                ).insert("backup_file"@, Json::Text(backup_file)),
            ),
        )
    } else {
        "Declared "@ + target + " reset completed for "@ + model + ": "@ + dec_text(byte_count)
            + " byte(s); backup_file: "@ + backup_file
    }
}

/// Reports a counter reset.
pub fn counter_reset_output(
    model: &str,
    selection: CounterResetSelection,
    byte_count: usize,
    backup_file: &str,
    as_json: bool,
) -> (report: String)
    ensures
        report@ == reset_report(model@, selection, byte_count as nat, backup_file@, as_json),
{
    let target = selection.target().display_name();
    if as_json {
        let object = json_with(
            json_object(),
            "operation",
            json_string("declared_counter_reset"),
        );
        let object = json_with(object, "model", json_string(model));
        let object = json_with(object, "target", json_string(target));
        let object = json_with(object, "byte_count", json_number(byte_count as u64));
        let object = json_with(object, "backup_file", json_string(backup_file));
        json_to_text(&object)
    } else {
        String::from_str("Declared ").concat(target).concat(" reset completed for ").concat(
            model,
        ).concat(": ").concat(dec(byte_count as u64).as_str()).concat(
            " byte(s); backup_file: ",
        ).concat(backup_file)
    }
}

/// The report on a write or a restore.
pub open spec fn mutation_report(
    operation: Seq<char>,
    model: Seq<char>,
    byte_count: nat,
    backup_key: Seq<char>,
    backup_file: Seq<char>,
    as_json: bool,
) -> Seq<char> {
    if as_json {
        json_text(
            Json::Object(
                Map::empty().insert("operation"@, Json::Text(operation)).insert(
                    "model"@,
                    Json::Text(model),
                ).insert("byte_count"@, Json::Number(byte_count)).insert(
                    backup_key,
                    Json::Text(backup_file),
                ),
            ),
        )
    } else {
        "EEPROM "@ + operation + " completed for "@ + model + ": "@ + dec_text(byte_count)
            + " byte(s); "@ + backup_key + ": "@ + backup_file
    }
}

/// Reports a write or a restore.
pub fn eeprom_mutation_output(
    operation: &str,
    model: &str,
    byte_count: usize,
    backup_key: &str,
    backup_file: &str,
    as_json: bool,
) -> (report: String)
    ensures
        report@ == mutation_report(
            operation@,
            model@,
            byte_count as nat,
            backup_key@,
            backup_file@,
            as_json,
        ),
{
    if as_json {
        let object = json_with(json_object(), "operation", json_string(operation));
        let object = json_with(object, "model", json_string(model));
        let object = json_with(object, "byte_count", json_number(byte_count as u64));
        let object = json_with(object, backup_key, json_string(backup_file));
        json_to_text(&object)
    } else {
        String::from_str("EEPROM ").concat(operation).concat(" completed for ").concat(
            model,
        ).concat(": ").concat(dec(byte_count as u64).as_str()).concat(" byte(s); ").concat(
            backup_key,
        ).concat(": ").concat(backup_file)
    }
}

/// The list of models.
pub open spec fn models_report(models: Seq<Seq<char>>, as_json: bool) -> Seq<char> {
    if as_json {
        json_text(Json::Object(Map::empty().insert("models"@, text_list(models))))
    } else {
        joined(models, "\n"@)
    }
}

/// Lists models.
pub fn render_models(models: &[String], as_json: bool) -> (report: String)
    ensures
        report@ == models_report(texts(models@), as_json),
{
    if as_json {
        json_to_text(&json_with(json_object(), "models", json_texts(models)))
    } else {
        join(models, "\n")
    }
}

/// The descriptions of operations.
pub open spec fn descriptions(operations: Seq<OperationView>) -> Seq<Seq<char>> {
    Seq::new(operations.len(), |i: int| operations[i].description)
}

/// Lines, each behind a line break and a word.
pub open spec fn labelled_lines(lines: Seq<Seq<char>>, label: Seq<char>) -> Seq<char>
    decreases lines.len(),
{
    if lines.len() == 0 {
        seq![]
    } else {
        labelled_lines(lines.drop_last(), label) + label + lines.last()
    }
}

/// The number of bytes in an address of a width.
pub open spec fn width_bytes(width: crate::epson::AddressWidth) -> nat {
    match width {
        crate::epson::AddressWidth::One => 1,
        crate::epson::AddressWidth::Two => 2,
    }
}

/// The report on the settings of a model.
pub open spec fn model_report(settings: SpecView, as_json: bool) -> Seq<char> {
    let read_width = width_bytes(settings.read_address_width);
    let write_width = width_bytes(settings.write_address_width);
    let low = hex_text(settings.memory_low as nat, 4, true);
    let high = hex_text(settings.memory_high as nat, 4, true);
    let operations = descriptions(settings.memory_operations);
    if as_json {
        json_text(
            Json::Object(
                Map::empty().insert("model"@, Json::Text(settings.model)).insert(
                    "read_key"@,
                    Json::Text(hex_text(settings.read_key as nat, 4, true)),
                ).insert(
                    "address_widths"@,
                    Json::Object(
                        Map::empty().insert("read"@, Json::Number(read_width)).insert(
                            "write"@,
                            Json::Number(write_width),
                        ),
                    ),
                ).insert(
                    "memory_range"@,
                    Json::Object(
                        Map::empty().insert("low"@, Json::Text(low)).insert(
                            "high"@,
                            Json::Text(high),
                        ),
                    ),
                ).insert("operations"@, text_list(operations)),
            ),
        )
    } else {
        "model: "@ + settings.model + "\nread-key: "@ + hex_text(settings.read_key as nat, 4, true)
            + "\naddress-widths: read="@ + dec_text(read_width) + " write="@ + dec_text(
            write_width,
        ) + "\nmemory-range: "@ + low + "-"@ + high + labelled_lines(operations, "\noperation: "@)
    }
}

fn operation_descriptions(settings: &EpsonSpec) -> (names: Vec<String>)
    ensures
        texts(names@) == descriptions(settings@.memory_operations),
{
    let mut names: Vec<String> = Vec::new();
    let ghost expected = descriptions(settings@.memory_operations);
    while names.len() < settings.memory_operations.len()
        invariant
            names@.len() <= settings.memory_operations@.len(),
            expected == descriptions(operation_views(settings.memory_operations@)),
            texts(names@) == expected.take(names@.len() as int),
        decreases settings.memory_operations.len() - names.len(),
    {
        let index: usize = names.len();
        push_field(&mut names, settings.memory_operations[index].description.clone());
    }
    proof {
        assert(texts(names@) =~= expected);
    }
    names
}

/// Reports the settings of a model.
pub fn render_model(settings: &EpsonSpec, as_json: bool) -> (report: String)
    ensures
        report@ == model_report(settings@, as_json),
{
    let read_key = hex(settings.read_key as u64, 4, true);
    let low = hex(settings.memory_low as u64, 4, true);
    let high = hex(settings.memory_high as u64, 4, true);
    let read_width: u64 = settings.read_address_width.byte_len() as u64;
    let write_width: u64 = settings.write_address_width.byte_len() as u64;
    let operations = operation_descriptions(settings);
    if as_json {
        let widths = json_with(json_object(), "read", json_number(read_width));
        let widths = json_with(widths, "write", json_number(write_width));
        let range = json_with(json_object(), "low", json_string(low.as_str()));
        let range = json_with(range, "high", json_string(high.as_str()));
        let object = json_with(json_object(), "model", json_string(settings.model.as_str()));
        let object = json_with(object, "read_key", json_string(read_key.as_str()));
        let object = json_with(object, "address_widths", widths);
        let object = json_with(object, "memory_range", range);
        let object = json_with(object, "operations", json_texts(operations.as_slice()));
        return json_to_text(&object);
    }
    let mut report = String::from_str("model: ").concat(settings.model.as_str()).concat(
        "\nread-key: ",
    ).concat(read_key.as_str()).concat("\naddress-widths: read=").concat(
        dec(read_width).as_str(),
    ).concat(" write=").concat(dec(write_width).as_str()).concat("\nmemory-range: ").concat(
        low.as_str(),
    ).concat("-").concat(high.as_str());
    let ghost front = report@;
    let mut index: usize = 0;
    proof {
        assert(texts(operations@).take(0) =~= seq![]);
        assert(front + labelled_lines(texts(operations@).take(0), "\noperation: "@) =~= front);
    }
    while index < operations.len()
        invariant
            index <= operations@.len(),
            report@ == front + labelled_lines(
                texts(operations@).take(index as int),
                "\noperation: "@,
            ),
        decreases operations.len() - index,
    {
        report.append("\noperation: ");
        report.append(operations[index].as_str());
        proof {
            let longer = texts(operations@).take(index + 1);
            assert(longer.drop_last() =~= texts(operations@).take(index as int));
            assert(report@ =~= front + labelled_lines(longer, "\noperation: "@));
        }
        index = index + 1;
    }
    proof {
        assert(texts(operations@).take(index as int) =~= texts(operations@));
    }
    report
}

/// The names of a map in ascending order.
pub open spec fn sorted_names(names: Seq<Seq<char>>, fields: Map<Seq<char>, Seq<char>>) -> bool {
    &&& ascending(names)
    &&& forall|name: Seq<char>| #[trigger] names.contains(name) <==> fields.contains_key(name)
}

/// The model in a database that an identity resolves to.
pub open spec fn resolved_model_of(
    identity: IdentityView,
    database: Map<Seq<char>, SpecView>,
) -> Option<Seq<char>> {
    match detected_model_of(identity) {
        Some(model) => if database.contains_key(model) {
            Some(database[model].model)
        } else {
            None
        },
        None => None,
    }
}

/// A text, or other words where there is none.
pub open spec fn or_words(text: Option<Seq<char>>, words: Seq<char>) -> Seq<char> {
    match text {
        Some(text) => text,
        None => words,
    }
}

/// The report on an identity in JSON.
pub open spec fn identity_json(
    identity: IdentityView,
    database: Map<Seq<char>, SpecView>,
) -> Seq<char> {
    json_text(
        Json::Object(
            Map::empty().insert(
                "identity"@,
                Json::Object(identity.fields.map_values(|value: Seq<char>| Json::Text(value))),
            ).insert("detected_model"@, optional_text(detected_model_of(identity))).insert(
                "resolved_model"@,
                optional_text(resolved_model_of(identity, database)),
            ),
        ),
    )
}

/// The report on an identity in lines, with the names of its fields in order.
pub open spec fn identity_lines(
    identity: IdentityView,
    database: Map<Seq<char>, SpecView>,
    names: Seq<Seq<char>>,
) -> Seq<char> {
    joined(Seq::new(names.len(), |i: int| names[i] + ": "@ + identity.fields[names[i]]), "\n"@)
        + "\ndetected-model: "@ + or_words(detected_model_of(identity), "unavailable"@)
        + "\nresolved-model: "@ + or_words(
        resolved_model_of(identity, database),
        "no built-in match"@,
    )
}

fn identity_object(fields: &TextMap<String>) -> (value: Value)
    requires
        fields.well_formed(),
    ensures
        json_content(value) == Json::Object(
            fields@.map_values(|value: String| value@).map_values(
                |value: Seq<char>| Json::Text(value),
            ),
        ),
{
    let mut object = json_object();
    let mut index: usize = 0;
    let ghost keys = fields.key_texts();
    let ghost mut members: Map<Seq<char>, Json> = Map::empty();
    while index < fields.len()
        invariant
            fields.well_formed(),
            keys == fields.key_texts(),
            index <= keys.len(),
            json_content(object) == Json::Object(members),
            forall|key: Seq<char>| #[trigger]
                members.contains_key(key) <==> keys.take(index as int).contains(key),
            forall|key: Seq<char>| #[trigger]
                members.contains_key(key) ==> fields@.contains_key(key) && members[key]
                    == Json::Text(fields@[key]@),
        decreases keys.len() - index,
    {
        let (name, value) = fields.entry(index);
        object = json_with(object, name.as_str(), json_string(value.as_str()));
        proof {
            let before = members;
            members = members.insert(name@, Json::Text(value@));
            let shorter = keys.take(index as int);
            let longer = keys.take(index + 1);
            assert(longer =~= shorter.push(name@));
            assert forall|key: Seq<char>| #[trigger] members.contains_key(key)
                <==> longer.contains(key) by {
                if longer.contains(key) {
                    let i = choose|i: int| 0 <= i < longer.len() && longer[i] == key;
                    if i < index {
                        assert(shorter[i] == key);
                        assert(shorter.contains(key));
                    }
                }
                if shorter.contains(key) {
                    let i = choose|i: int| 0 <= i < shorter.len() && shorter[i] == key;
                    assert(longer[i] == key);
                }
                if key == name@ {
                    assert(longer[index as int] == key);
                }
                assert(before.contains_key(key) <==> shorter.contains(key));
            }
        }
        index = index + 1;
    }
    proof {
        fields.lemma_keys();
        assert(keys.take(index as int) =~= keys);
        let expected = fields@.map_values(|value: String| value@).map_values(
            |value: Seq<char>| Json::Text(value),
        );
        assert forall|key: Seq<char>| #[trigger] members.contains_key(key)
            <==> expected.contains_key(key) by {
            assert(keys.contains(key) <==> fields@.contains_key(key));
        }
        assert(members =~= expected);
    }
    object
}

/// Reports an identity, and the model that it resolves to.
pub fn render_identity(identity: &PrinterIdentity, database: &ModelDatabase, as_json: bool) -> (
    report: String)
    requires
        identity.well_formed(),
        database.well_formed(),
    ensures
        as_json ==> report@ == identity_json(identity@, database@),
        !as_json ==> exists|names: Seq<Seq<char>>| #[trigger]
            sorted_names(names, identity@.fields) && report@ == identity_lines(
                identity@,
                database@,
                names,
            ),
{
    let detected = identity.detected_model();
    let resolved: Option<String> = match database.resolve_identity(identity) {
        Some(settings) => Some(settings.model.clone()),
        None => None,
    };
    let fields = identity.fields();
    if as_json {
        let detected_text: Option<&str> = match &detected {
            Some(model) => Some(model.as_str()),
            None => None,
        };
        let resolved_text: Option<&str> = match &resolved {
            Some(model) => Some(model.as_str()),
            None => None,
        };
        let object = json_with(json_object(), "identity", identity_object(fields));
        let object = json_with(object, "detected_model", json_optional(detected_text));
        let object = json_with(object, "resolved_model", json_optional(resolved_text));
        return json_to_text(&object);
    }
    let mut lines: Vec<String> = Vec::new();
    let ghost names = fields.key_texts();
    let ghost expected = Seq::new(
        names.len(),
        |i: int| names[i] + ": "@ + identity@.fields[names[i]],
    );
    while lines.len() < fields.len()
        invariant
            fields.well_formed(),
            fields@.map_values(|value: String| value@) == identity@.fields,
            names == fields.key_texts(),
            lines@.len() <= names.len(),
            expected == Seq::new(
                names.len(),
                |i: int| names[i] + ": "@ + identity@.fields[names[i]],
            ),
            texts(lines@) == expected.take(lines@.len() as int),
        decreases names.len() - lines@.len(),
    {
        let (name, value) = fields.entry(lines.len());
        proof {
            assert(identity@.fields[name@] == value@);
        }
        push_field(&mut lines, name.as_str().to_owned().concat(": ").concat(value.as_str()));
    }
    let detected_text = match &detected {
        Some(model) => model.as_str(),
        None => "unavailable",
    };
    let resolved_text = match &resolved {
        Some(model) => model.as_str(),
        None => "no built-in match",
    };
    proof {
        fields.lemma_keys();
        assert(texts(lines@) =~= expected);
        assert forall|name: Seq<char>| #[trigger] names.contains(name)
            <==> identity@.fields.contains_key(name) by {
            assert(names.contains(name) <==> fields@.contains_key(name));
        }
        assert(sorted_names(names, identity@.fields));
    }
    join(lines.as_slice(), "\n").concat("\ndetected-model: ").concat(detected_text).concat(
        "\nresolved-model: ",
    ).concat(resolved_text)
}

/// Where a listed device is: on the network or at a device file. Devices on the
/// USB are not listed.
pub open spec fn listed_location(device: DeviceView) -> Option<Seq<char>> {
    match device.location {
        LocationView::Network { address } => Some(address),
        LocationView::DeviceFile(path) => Some(path),
        LocationView::Usb => None,
    }
}

/// The devices that are listed, with their names and locations.
pub open spec fn listed_devices(devices: Seq<DeviceView>) -> Seq<(Seq<char>, Seq<char>)>
    decreases devices.len(),
{
    if devices.len() == 0 {
        seq![]
    } else {
        let earlier = listed_devices(devices.drop_last());
        match listed_location(devices.last()) {
            Some(location) => earlier.push((devices.last().display_name, location)),
            None => earlier,
        }
    }
}

/// The JSON object for a listed device.
pub open spec fn device_json(device: (Seq<char>, Seq<char>)) -> Json {
    Json::Object(
        Map::empty().insert("name"@, Json::Text(device.0)).insert("address"@, Json::Text(device.1)),
    )
}

/// The list of devices.
pub open spec fn devices_report(devices: Seq<DeviceView>, as_json: bool) -> Seq<char> {
    let listed = listed_devices(devices);
    if as_json {
        json_text(
            Json::Object(
                Map::empty().insert(
                    "devices"@,
                    Json::List(Seq::new(listed.len(), |i: int| device_json(listed[i]))),
                ),
            ),
        )
    } else {
        joined(Seq::new(listed.len(), |i: int| listed[i].0 + "\t"@ + listed[i].1), "\n"@)
    }
}

/// Lists devices.
pub fn render_discovery(devices: &[DiscoveredDevice], as_json: bool) -> (report: String)
    ensures
        report@ == devices_report(device_views(devices@), as_json),
{
    let mut values: Vec<Value> = Vec::new();
    let mut lines: Vec<String> = Vec::new();
    let mut index: usize = 0;
    let ghost views = device_views(devices@);
    proof {
        assert(views.take(0) =~= seq![]);
        assert(json_contents(values@) =~= Seq::new(0, |i: int| device_json(listed_devices(views.take(0))[i])));
    }
    while index < devices.len()
        invariant
            index <= devices@.len(),
            views == device_views(devices@),
            ({
                let listed = listed_devices(views.take(index as int));
                &&& json_contents(values@) =~= Seq::new(
                    listed.len(),
                    |i: int| device_json(listed[i]),
                )
                &&& texts(lines@) =~= Seq::new(
                    listed.len(),
                    |i: int| listed[i].0 + "\t"@ + listed[i].1,
                )
            }),
        decreases devices.len() - index,
    {
        let device = &devices[index];
        let location: Option<&String> = match &device.location {
            DeviceLocation::Network { address } => Some(address),
            DeviceLocation::DeviceFile(path) => Some(path),
            DeviceLocation::Usb => None,
        };
        let ghost before = listed_devices(views.take(index as int));
        let ghost earlier_values = values@;
        proof {
            assert(views.take(index + 1).drop_last() =~= views.take(index as int));
            assert(views.take(index + 1).last() == device@);
        }
        if let Some(location) = location {
            let object = json_with(
                json_object(),
                "name",
                json_string(device.display_name.as_str()),
            );
            let object = json_with(object, "address", json_string(location.as_str()));
            values.push(object);
            push_field(
                &mut lines,
                device.display_name.as_str().to_owned().concat("\t").concat(location.as_str()),
            );
            proof {
                let listed = listed_devices(views.take(index + 1));
                assert(listed == before.push((device@.display_name, location@)));
                assert(json_contents(values@) =~= json_contents(earlier_values).push(
                    device_json(listed.last()),
                ));
                assert(json_contents(values@) =~= Seq::new(
                    listed.len(),
                    |i: int| device_json(listed[i]),
                ));
                assert(texts(lines@) =~= Seq::new(
                    listed.len(),
                    |i: int| listed[i].0 + "\t"@ + listed[i].1,
                ));
            }
        }
        index = index + 1;
    }
    proof {
        assert(views.take(index as int) =~= views);
    }
    if as_json {
        json_to_text(&json_with(json_object(), "devices", json_list(values)))
    } else {
        join(lines.as_slice(), "\n")
    }
}

/// The identity that the bytes of a USB device ID stand for, or what is wrong with them.
pub open spec fn device_id_identity(bytes: Seq<u8>) -> Result<IdentityView, Seq<char>> {
    if !valid_utf8(bytes) {
        Err("USB printer device ID is not UTF-8"@)
    } else {
        match identity_of(decode_utf8(bytes)) {
            Ok(identity) => Ok(identity),
            Err(error) => Err(identity_error_text(error)),
        }
    }
}

/// Reads the identity from the bytes of a USB device ID.
pub fn parse_device_id(bytes: &[u8]) -> (identity: Result<PrinterIdentity, String>)
    ensures
        match (identity, device_id_identity(bytes@)) {
            (Ok(identity), Ok(expected)) => identity.well_formed() && identity@ == expected,
            (Err(message), Err(expected)) => message@ == expected,
            _ => false,
        },
{
    let identifier = match text_from_utf8(bytes) {
        Some(identifier) => identifier,
        None => return Err(String::from_str("USB printer device ID is not UTF-8")),
    };
    match PrinterIdentity::parse(identifier.as_str()) {
        Ok(identity) => Ok(identity),
        Err(error) => Err(error.message()),
    }
}

/// The failures of an operation and of the cleanup after it, in one line.
pub open spec fn operation_failures(
    operation: Option<Seq<char>>,
    shutdown: Option<Seq<char>>,
    close: Option<Seq<char>>,
    close_label: Seq<char>,
) -> Seq<Seq<char>> {
    optional_line(operation, seq![]) + optional_line(shutdown, "D4 shutdown failed: "@)
        + optional_line(close, close_label)
}

/// A line with a label, where there is something to say.
pub open spec fn optional_line(message: Option<Seq<char>>, label: Seq<char>) -> Seq<Seq<char>> {
    match message {
        Some(message) => seq![label + message],
        None => seq![],
    }
}

/// The text of an optional string.
pub open spec fn string_text(text: Option<String>) -> Option<Seq<char>> {
    match text {
        Some(text) => Some(text@),
        None => None,
    }
}

/// The words with which an operation failed, if it did.
pub open spec fn failure_of<R>(operation: Result<R, String>) -> Option<Seq<char>> {
    match operation {
        Ok(_) => None,
        Err(message) => Some(message@),
    }
}

fn push_failure(errors: &mut Vec<String>, label: &str, failure: Option<String>)
    ensures
        texts(final(errors)@) == texts(old(errors)@) + optional_line(string_text(failure), label@),
{
    if let Some(message) = &failure {
        push_pair(errors, label, message.as_str());
    }
    proof {
        assert(texts(errors@) =~= texts(old(errors)@) + optional_line(
            string_text(failure),
            label@,
        ));
    }
}

/// Finishes an operation on a USB session: its value counts only if the
/// cleanup went well too, and otherwise all failures are told.
pub fn finish_usb_operation<R>(
    operation: Result<R, String>,
    shutdown: Option<String>,
    close: Option<String>,
    close_label: &str,
) -> (result: Result<R, String>)
    ensures
        match result {
            Ok(value) => operation == Ok::<R, String>(value) && shutdown is None && close is None,
            Err(message) => {
                &&& operation is Err || shutdown is Some || close is Some
                &&& message@ == joined(
                    operation_failures(
                        failure_of(operation),
                        string_text(shutdown),
                        string_text(close),
                        close_label@,
                    ),
                    "; "@,
                )
            },
        },
{
    let mut errors: Vec<String> = Vec::new();
    proof {
        assert(texts(errors@) =~= seq![]);
    }
    let ghost expected = operation_failures(
        failure_of(operation),
        string_text(shutdown),
        string_text(close),
        close_label@,
    );
    let clean: bool = shutdown.is_none() && close.is_none();
    let ghost failed = failure_of(operation);
    match operation {
        Ok(value) => {
            if clean {
                return Ok(value);
            }
        },
        Err(failure) => {
            proof {
                assert(Seq::<char>::empty() + failure@ =~= failure@);
            }
            push_field(&mut errors, failure);
        },
    }
    proof {
        assert(texts(errors@) =~= optional_line(failed, seq![]));
    }
    push_failure(&mut errors, "D4 shutdown failed: ", shutdown);
    push_failure(&mut errors, close_label, close);
    proof {
        assert(texts(errors@) =~= expected);
    }
    Err(join(errors.as_slice(), "; "))
}

/// What is reported where a session could not be set up.
pub fn setup_failure(error: &ApplicationError, close: Option<String>) -> (message: String)
    ensures
        message@ == match close {
            None => "D4 session setup failed: "@ + application_error_text(error@),
            Some(close) => "D4 session setup failed: "@ + application_error_text(error@)
                + "; USB transport close failed: "@ + close@,
        },
{
    let message = String::from_str("D4 session setup failed: ").concat(
        error.message().as_str(),
    );
    match close {
        None => message,
        Some(close) => message.concat("; USB transport close failed: ").concat(close.as_str()),
    }
}

/// A report in JSON is the text of an object with these members.
pub open spec fn tells(report: Seq<char>, members: Map<Seq<char>, Json>) -> bool {
    report == json_text(Json::Object(members))
}

/// Readings are listed in their order: each address with its own value, in lines and in
/// JSON.
pub proof fn readings_are_listed_in_order(
    model: Seq<char>,
    replies: Seq<EepromReadReply>,
    reply: EepromReadReply,
)
    ensures
        readings_report(model, seq![reply], false) == "model: "@ + model + "\n"@ + ("0x"@ + hex_text(
            reply.address as nat,
            4,
            false,
        ) + ": "@ + ("0x"@ + hex_text(reply.value as nat, 2, false))),
        replies.len() > 0 ==> readings_report(model, replies.push(reply), false) == readings_report(
            model,
            replies,
            false,
        ) + "\n"@ + ("0x"@ + hex_text(reply.address as nat, 4, false) + ": "@ + ("0x"@ + hex_text(
            reply.value as nat,
            2,
            false,
        ))),
        exists|members: Map<Seq<char>, Json>| #[trigger]
            tells(readings_report(model, replies, true), members) && members["model"@]
                == Json::Text(model) && (members["eeprom"@] matches Json::List(items)
                && items.len() == replies.len() && forall|i: int|
                0 <= i < items.len() ==> (#[trigger] items[i] matches Json::Object(reading)
                    && reading["address"@] == Json::Text(
                    hex_text(replies[i].address as nat, 4, true),
                ) && reading["value"@] == Json::Text(hex_text(replies[i].value as nat, 2, true)))),
{
    lemma_keys_differ();
    let one = Seq::new(1, |i: int| reading_line(seq![reply][i]));
    assert(one =~= seq![reading_line(reply)]);
    assert(Seq::new(seq![reply].len(), |i: int| reading_line(seq![reply][i])) =~= one);
    let longer = replies.push(reply);
    let lines = Seq::new(longer.len(), |i: int| reading_line(longer[i]));
    let earlier = Seq::new(replies.len(), |i: int| reading_line(replies[i]));
    assert(lines.drop_last() =~= earlier);
    if replies.len() > 0 {
        assert(joined(lines, "\n"@) == joined(earlier, "\n"@) + "\n"@ + reading_line(reply));
        assert(readings_report(model, longer, false) =~= readings_report(model, replies, false)
            + "\n"@ + reading_line(reply));
    }
    let members = Map::<Seq<char>, Json>::empty().insert(
        "mode"@,
        Json::Text("read_only"@),
    ).insert("model"@, Json::Text(model)).insert(
        "eeprom"@,
        Json::List(Seq::new(replies.len(), |i: int| reading_json(replies[i]))),
    );
    assert(tells(readings_report(model, replies, true), members));
}

proof fn lemma_keys_differ()
    ensures
        "mode"@ != "model"@,
        "mode"@ != "eeprom"@,
        "model"@ != "eeprom"@,
        "address"@ != "value"@,
        "name"@ != "address"@,
        "start_address"@ != "end_address"@,
        "start_address"@ != "byte_count"@,
        "start_address"@ != "output_file"@,
        "end_address"@ != "byte_count"@,
        "end_address"@ != "output_file"@,
        "byte_count"@ != "output_file"@,
        "model"@ != "start_address"@,
        "model"@ != "end_address"@,
        "model"@ != "byte_count"@,
        "model"@ != "output_file"@,
        "status_text"@ != "status_hex"@,
        "model"@ != "status_text"@,
        "model"@ != "status_hex"@,
        "detected_model"@ != "resolved_model"@,
        "identity"@ != "detected_model"@,
        "identity"@ != "resolved_model"@,
{
    reveal_strlit("mode");
    reveal_strlit("model");
    reveal_strlit("eeprom");
    reveal_strlit("address");
    reveal_strlit("value");
    reveal_strlit("name");
    reveal_strlit("start_address");
    reveal_strlit("end_address");
    reveal_strlit("byte_count");
    reveal_strlit("output_file");
    reveal_strlit("status_text");
    reveal_strlit("status_hex");
    reveal_strlit("detected_model");
    reveal_strlit("resolved_model");
    reveal_strlit("identity");
    assert("mode"@.len() != "model"@.len());
    assert("mode"@.len() != "eeprom"@.len());
    assert("model"@.len() != "eeprom"@.len());
    assert("address"@.len() != "value"@.len());
    assert("name"@.len() != "address"@.len());
    assert("start_address"@.len() != "end_address"@.len());
    assert("start_address"@.len() != "byte_count"@.len());
    assert("start_address"@.len() != "output_file"@.len());
    assert("end_address"@.len() != "byte_count"@.len());
    assert("end_address"@[0] != "output_file"@[0]);
    assert("byte_count"@.len() != "output_file"@.len());
    assert("model"@.len() != "start_address"@.len());
    assert("model"@.len() != "end_address"@.len());
    assert("model"@.len() != "byte_count"@.len());
    assert("model"@.len() != "output_file"@.len());
    assert("status_text"@.len() != "status_hex"@.len());
    assert("model"@.len() != "status_text"@.len());
    assert("model"@.len() != "status_hex"@.len());
    assert("detected_model"@[0] != "resolved_model"@[0]);
    assert("identity"@.len() != "detected_model"@.len());
    assert("identity"@.len() != "resolved_model"@.len());
}

/// What the report on a saved image says: the model, the first and the last address and
/// how many bytes there are.
pub proof fn saved_images_are_described(
    model: Seq<char>,
    start_address: u16,
    byte_count: nat,
    output_file: Seq<char>,
)
    requires
        byte_count > 0,
        start_address + byte_count <= 65536,
    ensures
        dump_report(model, start_address, byte_count, output_file, false) == "Saved "@ + dec_text(
            byte_count,
        ) + "-byte EEPROM image for "@ + model + " ("@ + ("0x"@ + hex_text(
            start_address as nat,
            4,
            false,
        )) + "..="@ + ("0x"@ + hex_text((start_address + byte_count - 1) as nat, 4, false))
            + ") to "@ + output_file,
        exists|members: Map<Seq<char>, Json>| #[trigger]
            tells(dump_report(model, start_address, byte_count, output_file, true), members)
                && members["model"@] == Json::Text(model) && members["start_address"@]
                == Json::Text(hex_text(start_address as nat, 4, true)) && members["end_address"@]
                == Json::Text(hex_text((start_address + byte_count - 1) as nat, 4, true))
                && members["byte_count"@] == Json::Number(byte_count) && members["output_file"@]
                == Json::Text(output_file),
{
    lemma_keys_differ();
    let end_address = last_address(start_address, byte_count);
    assert(end_address == start_address + byte_count - 1);
    let members = Map::<Seq<char>, Json>::empty().insert(
        "mode"@,
        Json::Text("read_only"@),
    ).insert("model"@, Json::Text(model)).insert(
        "start_address"@,
        Json::Text(hex_text(start_address as nat, 4, true)),
    ).insert("end_address"@, Json::Text(hex_text(end_address as nat, 4, true))).insert(
        "byte_count"@,
        Json::Number(byte_count),
    ).insert("output_file"@, Json::Text(output_file));
    assert(tells(dump_report(model, start_address, byte_count, output_file, true), members));
}

/// What the report on a status says: the text of the response where it is one, without
/// control characters, and its bytes in hexadecimal.
pub proof fn statuses_are_described(model: Seq<char>, status: Seq<u8>)
    ensures
        valid_utf8(status) ==> status_report(model, status, false) == "model: "@ + model
            + "\nstatus: "@ + escaped_text(decode_utf8(status)) + "\nstatus-hex: "@ + hex_run_text(
            status,
        ),
        exists|members: Map<Seq<char>, Json>| #[trigger]
            tells(status_report(model, status, true), members) && members["model"@] == Json::Text(
                model,
            ) && members["status_hex"@] == Json::Text(hex_run_text(status)) && (valid_utf8(status)
                ==> members["status_text"@] == Json::Text(decode_utf8(status))) && (!valid_utf8(
                status,
            ) ==> members["status_text"@] == Json::Null),
{
    lemma_keys_differ();
    let members = Map::<Seq<char>, Json>::empty().insert(
        "mode"@,
        Json::Text("read_only"@),
    ).insert("model"@, Json::Text(model)).insert(
        "status_text"@,
        optional_text(status_text(status)),
    ).insert("status_hex"@, Json::Text(hex_run_text(status)));
    assert(tells(status_report(model, status, true), members));
}

/// Devices are listed in their order, each name before its own place; one that is found
/// over USB alone is left out.
pub proof fn devices_are_listed_in_order(devices: Seq<DeviceView>, device: DeviceView)
    ensures
        listed_devices(seq![]).len() == 0,
        device.location matches LocationView::Network { address } ==> listed_devices(
            devices.push(device),
        ) == listed_devices(devices).push((device.display_name, address)),
        device.location matches LocationView::DeviceFile(path) ==> listed_devices(
            devices.push(device),
        ) == listed_devices(devices).push((device.display_name, path)),
        device.location is Usb ==> listed_devices(devices.push(device)) == listed_devices(devices),
        exists|members: Map<Seq<char>, Json>| #[trigger]
            tells(devices_report(devices, true), members) && (members["devices"@] matches Json::List(
                items,
            ) && items.len() == listed_devices(devices).len() && forall|i: int|
                0 <= i < items.len() ==> (#[trigger] items[i] matches Json::Object(entry)
                    && entry["name"@] == Json::Text(listed_devices(devices)[i].0)
                    && entry["address"@] == Json::Text(listed_devices(devices)[i].1))),
{
    lemma_keys_differ();
    assert(devices.push(device).drop_last() =~= devices);
    let listed = listed_devices(devices);
    let members = Map::<Seq<char>, Json>::empty().insert(
        "devices"@,
        Json::List(Seq::new(listed.len(), |i: int| device_json(listed[i]))),
    );
    assert(tells(devices_report(devices, true), members));
}

/// What the report on an identity says: every field with its value, the model that was
/// detected and the model of the database that has this name.
pub proof fn identities_are_described(
    identity: IdentityView,
    database: Map<Seq<char>, SpecView>,
    name: Seq<char>,
)
    ensures
        exists|members: Map<Seq<char>, Json>| #[trigger]
            tells(identity_json(identity, database), members) && (members["identity"@] matches Json::Object(
                shown,
            ) && (shown.contains_key(name) <==> identity.fields.contains_key(name)) && (
            identity.fields.contains_key(name) ==> shown[name] == Json::Text(
                identity.fields[name],
            ))) && (detected_model_of(identity) matches Some(model) ==> members["detected_model"@]
                == Json::Text(model) && members["resolved_model"@] == (if database.contains_key(
                model,
            ) {
                Json::Text(database[model].model)
            } else {
                Json::Null
            })) && (detected_model_of(identity) is None ==> members["detected_model"@] == Json::Null
                && members["resolved_model"@] == Json::Null),
{
    lemma_keys_differ();
    let members = Map::<Seq<char>, Json>::empty().insert(
        "identity"@,
        Json::Object(identity.fields.map_values(|value: Seq<char>| Json::Text(value))),
    ).insert("detected_model"@, optional_text(detected_model_of(identity))).insert(
        "resolved_model"@,
        optional_text(resolved_model_of(identity, database)),
    );
    assert(tells(identity_json(identity, database), members));
}

proof fn lemma_setting_keys_differ()
    ensures
        "address_widths"@ != "memory_range"@,
        "address_widths"@ != "model"@,
        "address_widths"@ != "operations"@,
        "address_widths"@ != "read_key"@,
        "memory_range"@ != "model"@,
        "memory_range"@ != "operations"@,
        "memory_range"@ != "read_key"@,
        "model"@ != "operations"@,
        "model"@ != "read_key"@,
        "operations"@ != "read_key"@,
        "read"@ != "write"@,
        "high"@ != "low"@,
{
    reveal_strlit("address_widths");
    reveal_strlit("memory_range");
    reveal_strlit("model");
    reveal_strlit("operations");
    reveal_strlit("read_key");
    assert("address_widths"@.len() != "memory_range"@.len());
    assert("address_widths"@.len() != "model"@.len());
    assert("address_widths"@.len() != "operations"@.len());
    assert("address_widths"@.len() != "read_key"@.len());
    assert("memory_range"@.len() != "model"@.len());
    assert("memory_range"@.len() != "operations"@.len());
    assert("memory_range"@.len() != "read_key"@.len());
    assert("model"@.len() != "operations"@.len());
    assert("model"@.len() != "read_key"@.len());
    assert("operations"@.len() != "read_key"@.len());
    reveal_strlit("read");
    reveal_strlit("write");
    assert("read"@.len() != "write"@.len());
    reveal_strlit("high");
    reveal_strlit("low");
    assert("high"@.len() != "low"@.len());
}

/// What the report on a model says: its key, how many bytes its addresses have when it is
/// read and when it is written, the lowest address before the highest, and its operations
/// in their order.
pub proof fn models_are_described(settings: EpsonSpec)
    ensures
        exists|members: Map<Seq<char>, Json>| #[trigger]
            tells(model_report(settings@, true), members) && members["model"@] == Json::Text(
                settings.model@,
            ) && members["read_key"@] == Json::Text(
                hex_text(settings.read_key as nat, 4, true),
            ) && (members["address_widths"@] matches Json::Object(widths) && widths["read"@]
                == Json::Number(
                if settings.read_address_width == crate::epson::AddressWidth::One {
                    1
                } else {
                    2
                },
            ) && widths["write"@] == Json::Number(
                if settings.write_address_width == crate::epson::AddressWidth::One {
                    1
                } else {
                    2
                },
            )) && (members["memory_range"@] matches Json::Object(range) && range["low"@]
                == Json::Text(hex_text(settings.memory_low as nat, 4, true)) && range["high"@]
                == Json::Text(hex_text(settings.memory_high as nat, 4, true))),
{
    lemma_setting_keys_differ();
    let widths = Map::<Seq<char>, Json>::empty().insert(
        "read"@,
        Json::Number(width_bytes(settings.read_address_width)),
    ).insert("write"@, Json::Number(width_bytes(settings.write_address_width)));
    let range = Map::<Seq<char>, Json>::empty().insert(
        "low"@,
        Json::Text(hex_text(settings.memory_low as nat, 4, true)),
    ).insert("high"@, Json::Text(hex_text(settings.memory_high as nat, 4, true)));
    let members = Map::<Seq<char>, Json>::empty().insert(
        "model"@,
        Json::Text(settings@.model),
    ).insert("read_key"@, Json::Text(hex_text(settings.read_key as nat, 4, true))).insert(
        "address_widths"@,
        Json::Object(widths),
    ).insert("memory_range"@, Json::Object(range)).insert(
        "operations"@,
        text_list(descriptions(settings@.memory_operations)),
    );
    assert(tells(model_report(settings@, true), members));
}

proof fn lemma_change_keys_differ()
    ensures
        "backup_file"@ != "byte_count"@,
        "backup_file"@ != "d4_entry"@,
        "backup_file"@ != "model"@,
        "backup_file"@ != "operation"@,
        "backup_file"@ != "received_bytes"@,
        "backup_file"@ != "target"@,
        "byte_count"@ != "d4_entry"@,
        "byte_count"@ != "model"@,
        "byte_count"@ != "operation"@,
        "byte_count"@ != "received_bytes"@,
        "byte_count"@ != "target"@,
        "d4_entry"@ != "model"@,
        "d4_entry"@ != "operation"@,
        "d4_entry"@ != "received_bytes"@,
        "d4_entry"@ != "target"@,
        "model"@ != "operation"@,
        "model"@ != "received_bytes"@,
        "model"@ != "target"@,
        "operation"@ != "received_bytes"@,
        "operation"@ != "target"@,
        "received_bytes"@ != "target"@,
{
    reveal_strlit("backup_file");
    reveal_strlit("byte_count");
    reveal_strlit("d4_entry");
    reveal_strlit("model");
    reveal_strlit("operation");
    reveal_strlit("received_bytes");
    reveal_strlit("target");
    assert("backup_file"@.len() != "byte_count"@.len());
    assert("backup_file"@.len() != "d4_entry"@.len());
    assert("backup_file"@.len() != "model"@.len());
    assert("backup_file"@.len() != "operation"@.len());
    assert("backup_file"@.len() != "received_bytes"@.len());
    assert("backup_file"@.len() != "target"@.len());
    assert("byte_count"@.len() != "d4_entry"@.len());
    assert("byte_count"@.len() != "model"@.len());
    assert("byte_count"@.len() != "operation"@.len());
    assert("byte_count"@.len() != "received_bytes"@.len());
    assert("byte_count"@.len() != "target"@.len());
    assert("d4_entry"@.len() != "model"@.len());
    assert("d4_entry"@.len() != "operation"@.len());
    assert("d4_entry"@.len() != "received_bytes"@.len());
    assert("d4_entry"@.len() != "target"@.len());
    assert("model"@.len() != "operation"@.len());
    assert("model"@.len() != "received_bytes"@.len());
    assert("model"@.len() != "target"@.len());
    assert("operation"@.len() != "received_bytes"@.len());
    assert("operation"@.len() != "target"@.len());
    assert("received_bytes"@.len() != "target"@.len());
}

/// What the reports on changes say: what was done, for which model, to how many bytes, and
/// where the backup is.
pub proof fn changes_are_described(
    operation: Seq<char>,
    model: Seq<char>,
    selection: CounterResetSelection,
    byte_count: nat,
    backup_file: Seq<char>,
)
    ensures
        ({
            let target = if selection == CounterResetSelection::Waste {
                "waste counter"@
            } else {
                "platen pad counter"@
            };
            &&& reset_report(model, selection, byte_count, backup_file, false) == "Declared "@
                + target + " reset completed for "@ + model + ": "@ + dec_text(byte_count)
                + " byte(s); backup_file: "@ + backup_file
            &&& exists|members: Map<Seq<char>, Json>| #[trigger]
                tells(reset_report(model, selection, byte_count, backup_file, true), members)
                    && members["model"@] == Json::Text(model) && members["target"@] == Json::Text(
                    target,
                ) && members["byte_count"@] == Json::Number(byte_count) && members["backup_file"@]
                    == Json::Text(backup_file)
        }),
        mutation_report(operation, model, byte_count, "backup_file"@, backup_file, false)
            == "EEPROM "@ + operation + " completed for "@ + model + ": "@ + dec_text(byte_count)
            + " byte(s); "@ + "backup_file"@ + ": "@ + backup_file,
        exists|members: Map<Seq<char>, Json>| #[trigger]
            tells(
                mutation_report(operation, model, byte_count, "backup_file"@, backup_file, true),
                members,
            ) && members["operation"@] == Json::Text(operation) && members["model"@] == Json::Text(
                model,
            ) && members["byte_count"@] == Json::Number(byte_count) && members["backup_file"@]
                == Json::Text(backup_file),
{
    lemma_change_keys_differ();
    let target = target_name(selected_target(selection));
    let reset = Map::<Seq<char>, Json>::empty().insert(
        "operation"@,
        Json::Text("declared_counter_reset"@),
    ).insert("model"@, Json::Text(model)).insert("target"@, Json::Text(target)).insert(
        "byte_count"@,
        Json::Number(byte_count),
    ).insert("backup_file"@, Json::Text(backup_file));
    assert(tells(reset_report(model, selection, byte_count, backup_file, true), reset));
    let change = Map::<Seq<char>, Json>::empty().insert(
        "operation"@,
        Json::Text(operation),
    ).insert("model"@, Json::Text(model)).insert("byte_count"@, Json::Number(byte_count)).insert(
        "backup_file"@,
        Json::Text(backup_file),
    );
    assert(tells(
        mutation_report(operation, model, byte_count, "backup_file"@, backup_file, true),
        change,
    ));
}

/// All failures of an operation are told: its own first, then that of the shutdown, then
/// that of the close.
pub proof fn failures_are_told_in_order(
    operation: Option<Seq<char>>,
    shutdown: Option<Seq<char>>,
    close: Option<Seq<char>>,
    close_label: Seq<char>,
)
    ensures
        ({
            let lines = operation_failures(operation, shutdown, close, close_label);
            let first: int = if operation is Some {
                1
            } else {
                0
            };
            let second: int = first + (if shutdown is Some {
                1int
            } else {
                0int
            });
            &&& lines.len() == second + (if close is Some {
                1int
            } else {
                0int
            })
            &&& operation matches Some(message) ==> lines[0] == message
            &&& shutdown matches Some(message) ==> lines[first] == "D4 shutdown failed: "@ + message
            &&& close matches Some(message) ==> lines[second] == close_label + message
        }),
{
    if let Some(message) = operation {
        assert(Seq::<char>::empty() + message =~= message);
    }
}

/// The identity in the bytes of a device ID is that of their text.
pub proof fn device_ids_are_texts(bytes: Seq<u8>)
    ensures
        valid_utf8(bytes) ==> match identity_of(decode_utf8(bytes)) {
            Ok(identity) => device_id_identity(bytes) == Ok::<IdentityView, Seq<char>>(identity),
            Err(error) => device_id_identity(bytes) is Err,
        },
        !valid_utf8(bytes) ==> device_id_identity(bytes) is Err,
{
}

/// The lines on an identity: one for each field, in the order of the names, with the value
/// of that field, and behind them the model that was detected and the one it resolves to.
pub proof fn identities_are_listed_field_by_field(
    identity: IdentityView,
    database: Map<Seq<char>, SpecView>,
    names: Seq<Seq<char>>,
    model: Seq<char>,
)
    requires
        detected_model_of(identity) == Some(model),
    ensures
        ({
            let lines = Seq::new(names.len(), |i: int| names[i] + ": "@ + identity.fields[names[i]]);
            identity_lines(identity, database, names) == joined(lines, "\n"@)
                + "\ndetected-model: "@ + model + "\nresolved-model: "@ + (
            if database.contains_key(model) {
                database[model].model
            } else {
                "no built-in match"@
            })
        }),
{
    let lines = Seq::new(names.len(), |i: int| names[i] + ": "@ + identity.fields[names[i]]);
    assert(lines =~= Seq::new(
        names.len(),
        |i: int| names[i] + ": "@ + identity.fields[names[i]],
    ));
}

/// What is told of the entry probe: whether the answer was recognized, and how many bytes
/// came where it was not.
pub proof fn probes_are_described(received_bytes: usize)
    ensures
        probe_report(EpsonD4EntryProbeResult::Recognized, false) == "D4 entry reply: "@
            + "recognized"@,
        probe_report(EpsonD4EntryProbeResult::Unrecognized { received_bytes }, false)
            == "D4 entry reply: "@ + "unrecognized"@ + " ("@ + dec_text(received_bytes as nat)
            + " bytes received)"@,
        exists|members: Map<Seq<char>, Json>| #[trigger]
            tells(
                probe_report(EpsonD4EntryProbeResult::Unrecognized { received_bytes }, true),
                members,
            ) && members["d4_entry"@] == Json::Text("unrecognized"@) && members["received_bytes"@]
                == Json::Number(received_bytes as nat),
        exists|members: Map<Seq<char>, Json>| #[trigger]
            tells(probe_report(EpsonD4EntryProbeResult::Recognized, true), members)
                && members["d4_entry"@] == Json::Text("recognized"@) && members["received_bytes"@]
                == Json::Null,
{
    lemma_change_keys_differ();
    let none = Map::<Seq<char>, Json>::empty().insert(
        "d4_entry"@,
        Json::Text("unrecognized"@),
    ).insert("received_bytes"@, Json::Number(received_bytes as nat));
    assert(tells(
        probe_report(EpsonD4EntryProbeResult::Unrecognized { received_bytes }, true),
        none,
    ));
    let found = Map::<Seq<char>, Json>::empty().insert(
        "d4_entry"@,
        Json::Text("recognized"@),
    ).insert("received_bytes"@, Json::Null);
    assert(tells(probe_report(EpsonD4EntryProbeResult::Recognized, true), found));
}

} // verus!
