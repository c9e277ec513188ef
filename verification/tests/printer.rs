//! Commands, models, identities and printer operations on a control channel.
use std::collections::VecDeque;

use reink::command::{
    encode_command, encode_eeprom_read, encode_eeprom_write, encode_factory_command,
    parse_eeprom_read_reply, CommandError, EepromReadReply,
};
use reink::controller::{EepromWriteOptions, EpsonController, EpsonError};
use reink::database::{ModelDatabase, RawDatabase, RawEepromField, RawMemoryOperation, RawSpec};
use reink::epson::{
    AddressWidth, CounterResetTarget, EepromFieldConfidence, EepromFieldEncoding, EpsonSpec,
    SpecError,
};
use reink::identity::{IdentityParseError, PrinterIdentity};
use reink::operation::{
    channel_eeprom_dump, channel_eeprom_read_output, channel_status_output,
};
use reink::platform::{ControlChannel, ControlError};

struct ScriptedControlChannel {
    exchanges: VecDeque<(Vec<u8>, Vec<u8>)>,
}

impl ScriptedControlChannel {
    fn new() -> Self {
        ScriptedControlChannel {
            exchanges: VecDeque::new(),
        }
    }

    fn expect_reply(&mut self, request: Vec<u8>, reply: &[u8]) {
        self.exchanges.push_back((request, reply.to_vec()));
    }

    fn assert_finished(&self) {
        assert!(self.exchanges.is_empty());
    }
}

impl ControlChannel for ScriptedControlChannel {
    type Origin = ();

    fn request(&mut self, request: &[u8]) -> Result<Vec<u8>, ControlError> {
        match self.exchanges.pop_front() {
            Some((expected, reply)) => {
                assert_eq!(request, expected.as_slice());
                Ok(reply)
            }
            None => Err(ControlError::Protocol {
                message: "unexpected request".to_owned(),
            }),
        }
    }
}

fn model(name: &str) -> EpsonSpec {
    ModelDatabase::builtin()
        .unwrap()
        .get(name)
        .unwrap()
        .duplicate()
}

fn text(value: Option<&String>) -> Option<&str> {
    value.map(String::as_str)
}

/// Reads a metadata document into the groups of models that it describes.
fn from_toml(source: &str) -> Result<ModelDatabase, SpecError> {
    let document: toml::Table = source.parse().unwrap();
    let mut epson = Vec::new();
    for group in document["EPSON"].as_array().unwrap() {
        let strings = |name: &str| -> Vec<String> {
            group[name]
                .as_array()
                .unwrap()
                .iter()
                .map(|value| value.as_str().unwrap().to_owned())
                .collect()
        };
        let mut mem = Vec::new();
        if let Some(operations) = group.get("mem") {
            for operation in operations.as_array().unwrap() {
                let numbers = |name: &str| -> Vec<i64> {
                    operation
                        .get(name)
                        .map(|values| {
                            values
                                .as_array()
                                .unwrap()
                                .iter()
                                .map(|value| value.as_integer().unwrap())
                                .collect()
                        })
                        .unwrap_or_default()
                };
                mem.push(RawMemoryOperation {
                    addr: numbers("addr").into_iter().map(|value| value as u16).collect(),
                    desc: operation["desc"].as_str().unwrap().to_owned(),
                    reset: numbers("reset").into_iter().map(|value| value as u8).collect(),
                    min: operation
                        .get("min")
                        .map(|value| value.as_integer().unwrap() as u32),
                });
            }
        }
        let mut read_only_fields = Vec::new();
        if let Some(fields) = group.get("read_only_fields") {
            for field in fields.as_array().unwrap() {
                let word = |name: &str| field[name].as_str().unwrap().to_owned();
                read_only_fields.push(RawEepromField {
                    address: field
                        .get("address")
                        .map(|value| value.as_integer().unwrap() as u16),
                    range: field.get("range").map(|value| {
                        let ends = value.as_array().unwrap();
                        (
                            ends[0].as_integer().unwrap() as u16,
                            ends[1].as_integer().unwrap() as u16,
                        )
                    }),
                    label: word("label"),
                    encoding: word("encoding"),
                    confidence: word("confidence"),
                    evidence: word("evidence"),
                    sensitive: false,
                });
            }
        }
        epson.push(RawSpec {
            models: strings("models"),
            mem,
            read_only_fields,
            ..group_of(&[])
        });
    }
    ModelDatabase::from_raw(&RawDatabase { epson })
}

fn group_of(models: &[&str]) -> RawSpec {
    RawSpec {
        brand: None,
        vendor_id: None,
        product_id: None,
        rkey: 0,
        write_key: None,
        shifted_write_key: None,
        read_length: 2,
        write_length: 2,
        memory_low: 0,
        memory_high: 0xff,
        mem: Vec::new(),
        read_only_fields: Vec::new(),
        models: models.iter().map(|name| (*name).to_owned()).collect(),
    }
}

fn field_of(address: Option<u16>, range: Option<(u16, u16)>) -> RawEepromField {
    RawEepromField {
        address,
        range,
        label: "Field".to_owned(),
        encoding: "u8".to_owned(),
        confidence: "confirmed".to_owned(),
        evidence: "test".to_owned(),
        sensitive: false,
    }
}

fn refused(group: RawSpec) -> SpecError {
    ModelDatabase::from_raw(&RawDatabase { epson: vec![group] }).unwrap_err()
}

#[test]
fn encodes_regular_commands() {
    assert_eq!(encode_command(*b"st", &[1]).unwrap(), b"st\x01\x00\x01");
}

#[test]
fn encodes_factory_commands() {
    assert_eq!(
        encode_factory_command(0x1234, b'A', &[0x56]).unwrap(),
        b"||\x06\x004\x12A\xbe\xa0\x56"
    );
}

#[test]
fn encodes_eeprom_requests_using_specified_endianness() {
    let database = ModelDatabase::builtin().unwrap();
    let spec = database.get("C90").unwrap();

    assert_eq!(
        encode_eeprom_read(spec, 0x0c).unwrap(),
        b"||\x06\x00\x06\x00A\xbe\xa0\x0c"
    );
    let write = encode_eeprom_write(spec, 0x0c, 0x42).unwrap();
    assert_eq!(&write[..9], b"||\x10\x00\x06\x00B\xbd!");
    assert_eq!(&write[9..11], b"\x0c\x00");
    assert_eq!(write[11], 0x42);
}

#[test]
fn reviewed_sanitized_l1300_factory_read_request_and_reply_regression() {
    let database = ModelDatabase::builtin().unwrap();
    let spec = database.get("L1300").unwrap();

    assert_eq!(
        encode_eeprom_read(spec, 0x26).unwrap(),
        b"||\x07\x002\x08A\xbe\xa0\x26\x00"
    );
    assert_eq!(
        parse_eeprom_read_reply(b"@BDC PS EE:002600;", AddressWidth::Two).unwrap(),
        EepromReadReply {
            address: 0x26,
            value: 0,
        }
    );
}

#[test]
fn rejects_one_byte_addresses_outside_range() {
    let database = ModelDatabase::builtin().unwrap();
    let spec = database.get("C90").unwrap();

    assert!(matches!(
        encode_eeprom_read(spec, 0x100),
        Err(CommandError::AddressOutOfRange {
            width: AddressWidth::One,
            ..
        })
    ));
}

#[test]
fn parses_legacy_read_reply_for_both_address_widths() {
    assert_eq!(
        parse_eeprom_read_reply(b"@BDC PS EE:ED0100;", AddressWidth::One).unwrap(),
        EepromReadReply {
            address: 0xed,
            value: 0x01
        }
    );
    assert_eq!(
        parse_eeprom_read_reply(b"@BDC PS EE:ED0100;", AddressWidth::Two).unwrap(),
        EepromReadReply {
            address: 0xed01,
            value: 0
        }
    );
}

#[test]
fn rejects_malformed_read_replies() {
    assert!(matches!(
        parse_eeprom_read_reply(b"EE:XYZ;", AddressWidth::Two),
        Err(CommandError::InvalidReadReply { .. })
    ));
}

#[test]
fn commands_have_a_longest_payload_and_need_a_write_key() {
    assert!(matches!(
        encode_command(*b"st", &vec![0; 0x1_0000]),
        Err(CommandError::PayloadTooLong { length: 0x1_0000 })
    ));
    let without_key = model("XP-15000");
    if without_key.write_key.is_none() {
        assert!(matches!(
            encode_eeprom_write(&without_key, 0, 0),
            Err(CommandError::MissingWriteKey)
        ));
    }
    assert_eq!(
        CommandError::AddressOutOfRange {
            width: AddressWidth::One,
            address: 0x100
        }
        .message(),
        "address 0x0100 does not fit One width"
    );
}

#[test]
fn reads_identity_and_eeprom_values() {
    let spec = model("C90");
    let mut channel = ScriptedControlChannel::new();
    channel.expect_reply(
        encode_command(*b"di", &[1]).unwrap(),
        b"@EJL ID MFG:EPSON;MDL:C90;",
    );
    channel.expect_reply(
        encode_eeprom_read(&spec, 0x0c).unwrap(),
        b"@BDC PS EE:0C4200;",
    );

    let mut controller = EpsonController::new(&mut channel, &spec);
    assert_eq!(
        text(controller.read_identity().ok().unwrap().model()),
        Some("C90")
    );
    assert_eq!(controller.read_eeprom(&[0x0c]).ok().unwrap()[0].value, 0x42);
    channel.assert_finished();
}

#[test]
fn writes_and_verifies_eeprom_values_by_default() {
    let spec = model("C90");
    let mut channel = ScriptedControlChannel::new();
    channel.expect_reply(encode_eeprom_write(&spec, 0x0c, 0x42).unwrap(), b":OK;");
    channel.expect_reply(
        encode_eeprom_read(&spec, 0x0c).unwrap(),
        b"@BDC PS EE:0C4200;",
    );

    let mut controller = EpsonController::new(&mut channel, &spec);
    controller
        .write_eeprom(&[(0x0c, 0x42)], EepromWriteOptions::default())
        .ok()
        .unwrap();
    channel.assert_finished();
}

#[test]
fn atomic_write_restores_completed_values_after_failure() {
    let spec = model("C90");
    let mut channel = ScriptedControlChannel::new();
    channel.expect_reply(
        encode_eeprom_read(&spec, 0x0c).unwrap(),
        b"@BDC PS EE:0C1000;",
    );
    channel.expect_reply(
        encode_eeprom_read(&spec, 0x0d).unwrap(),
        b"@BDC PS EE:0D2000;",
    );
    channel.expect_reply(encode_eeprom_write(&spec, 0x0c, 0x42).unwrap(), b":OK;");
    channel.expect_reply(encode_eeprom_write(&spec, 0x0d, 0x43).unwrap(), b":NA;");
    channel.expect_reply(encode_eeprom_write(&spec, 0x0c, 0x10).unwrap(), b":OK;");

    let mut controller = EpsonController::new(&mut channel, &spec);
    assert!(matches!(
        controller.write_eeprom(
            &[(0x0c, 0x42), (0x0d, 0x43)],
            EepromWriteOptions {
                verify_read_back: false,
                atomic: true,
            },
        ),
        Err(EpsonError::AtomicWriteFailed { .. })
    ));
    channel.assert_finished();
}

#[test]
fn printer_errors_tell_what_went_wrong() {
    let spec = model("C90");

    let mut channel = ScriptedControlChannel::new();
    channel.expect_reply(
        encode_eeprom_read(&spec, 0x0c).unwrap(),
        b"@BDC PS EE:0D4200;",
    );
    let error = EpsonController::new(&mut channel, &spec)
        .read_eeprom(&[0x0c])
        .unwrap_err();
    assert!(matches!(
        error,
        EpsonError::AddressMismatch {
            requested: 0x0c,
            received: 0x0d
        }
    ));

    let mut channel = ScriptedControlChannel::new();
    channel.expect_reply(encode_eeprom_write(&spec, 0x0c, 0x42).unwrap(), b":NA;");
    let error = EpsonController::new(&mut channel, &spec)
        .write_eeprom(&[(0x0c, 0x42)], EepromWriteOptions::default())
        .unwrap_err();
    assert!(error == EpsonError::AtomicWriteFailed {
            address: 0x0c,
            reason: EpsonError::WriteRejected { address: 0x0c }.message(),
            rollback_error: None,
        });

    let mut channel = ScriptedControlChannel::new();
    channel.expect_reply(encode_eeprom_write(&spec, 0x0c, 0x42).unwrap(), b":OK;");
    channel.expect_reply(
        encode_eeprom_read(&spec, 0x0c).unwrap(),
        b"@BDC PS EE:0C4100;",
    );
    let error = EpsonController::new(&mut channel, &spec)
        .write_eeprom(&[(0x0c, 0x42)], EepromWriteOptions::default())
        .unwrap_err();
    let mismatch = EpsonError::VerificationFailed {
        address: 0x0c,
        expected: 0x42,
        actual: 0x41,
    };
    assert!(error == EpsonError::AtomicWriteFailed {
            address: 0x0c,
            reason: mismatch.message(),
            rollback_error: None,
        });

    let mut channel = ScriptedControlChannel::new();
    channel.expect_reply(encode_command(*b"di", &[1]).unwrap(), b"nothing of use");
    let error = EpsonController::new(&mut channel, &spec)
        .read_identity()
        .unwrap_err();
    assert!(matches!(error, EpsonError::InvalidIdentityResponse));

    let mut channel = ScriptedControlChannel::new();
    let error = EpsonController::new(&mut channel, &spec)
        .read_status()
        .unwrap_err();
    assert!(matches!(error, EpsonError::Control(_)));
    assert_eq!(error.message(), "control-channel error: unexpected request");

    let mut channel = ScriptedControlChannel::new();
    let platen = model("XP-15000");
    let error = EpsonController::new(&mut channel, &platen)
        .reset_waste(EepromWriteOptions::default())
        .unwrap_err();
    assert!(matches!(error, EpsonError::OperationUnavailable));
    assert_eq!(error.message(), "waste-counter reset is unavailable");
}

#[test]
fn a_failed_rollback_is_reported_with_its_address() {
    let spec = model("C90");
    let mut channel = ScriptedControlChannel::new();
    channel.expect_reply(encode_eeprom_write(&spec, 0x0c, 0x42).unwrap(), b":OK;");
    channel.expect_reply(encode_eeprom_write(&spec, 0x0d, 0x43).unwrap(), b":NA;");
    channel.expect_reply(encode_eeprom_write(&spec, 0x0c, 0x10).unwrap(), b":NA;");
    let error = EpsonController::new(&mut channel, &spec)
        .write_eeprom_with_originals(
            &[(0x0c, 0x42), (0x0d, 0x43)],
            Some(&[(0x0c, 0x10), (0x0d, 0x20)]),
            EepromWriteOptions {
                verify_read_back: false,
                atomic: true,
            },
        )
        .unwrap_err();
    assert!(error.message().starts_with("atomic EEPROM write failed at 0x000d: "));
    assert!(error.message().contains("; rollback failed at 0x000c: "));
    channel.assert_finished();
}

#[test]
fn builtin_database_loads_known_model() {
    let database = ModelDatabase::builtin().unwrap();
    let spec = database.get("XP-352").unwrap();

    assert_eq!(spec.read_address_width, AddressWidth::Two);
    assert!(!spec.memory_operations.is_empty());
}

#[test]
fn waste_counter_reset_merges_only_declared_operations() {
    let database = ModelDatabase::builtin().unwrap();
    let spec = database.get("C90").unwrap();
    let operation = spec.waste_counter_reset().unwrap();

    assert_eq!(
        operation.addresses,
        vec![0x06, 0x07, 0x0a, 0x0b, 0x16, 0x17, 0x34, 0x35, 0x0c, 0x0d]
    );
    assert_eq!(
        operation.reset_values,
        vec![0, 0, 0, 0, 0, 0, 4, 0x57, 1, 0xf4]
    );
    assert!(operation.has_declared_reset_values());
}

#[test]
fn platen_resets_do_not_include_waste_operations() {
    let database = ModelDatabase::builtin().unwrap();
    let spec = database.get("XP-15000").unwrap();
    let operation = spec.counter_reset(CounterResetTarget::PlatenPad).unwrap();

    assert_eq!(operation.addresses, vec![0x40, 0x43, 0x44, 0x48, 0x1ed]);
    assert_eq!(operation.reset_values, vec![0, 0, 0, 0x5e, 0]);
    assert!(spec.counter_reset(CounterResetTarget::Waste).is_none());
}

#[test]
fn missing_reset_values_remain_undeclared_and_are_not_zeroed() {
    let source = r#"
        [[EPSON]]
        models = ["Undeclared"]
        mem = [{ addr = [1, 2], desc = "Waste counter", min = 500 }]
    "#;
    let database = from_toml(source).unwrap();
    let operation = &database.get("Undeclared").unwrap().memory_operations[0];

    assert_eq!(operation.reset_values, Vec::<u8>::new());
    assert!(!operation.has_declared_reset_values());
    assert_eq!(operation.minimum, Some(500));
    assert!(database
        .get("Undeclared")
        .unwrap()
        .waste_counter_reset()
        .is_none());
}

#[test]
fn l1300_has_read_only_capture_metadata_without_changing_reset_semantics() {
    let database = ModelDatabase::builtin().unwrap();
    let l1300 = database.get("L1300").unwrap();
    let et_14000 = database.get("ET-14000").unwrap();

    assert!(et_14000.read_only_fields.is_empty());
    assert_eq!(l1300.read_only_fields.len(), 11);
    assert_eq!(
        l1300
            .read_only_fields
            .iter()
            .map(|field| {
                (
                    field.address,
                    field.end_address,
                    field.encoding,
                    field.confidence,
                    field.sensitive,
                )
            })
            .collect::<Vec<_>>(),
        vec![
            (
                0x26,
                0x27,
                EepromFieldEncoding::U16Le,
                EepromFieldConfidence::Confirmed,
                false,
            ),
            (
                0x58,
                0x58,
                EepromFieldEncoding::RawBytes,
                EepromFieldConfidence::RelatedUnknown,
                false,
            ),
            (
                0x16a,
                0x16a,
                EepromFieldEncoding::U8,
                EepromFieldConfidence::StronglyRelated,
                false,
            ),
            (
                0x16e,
                0x16e,
                EepromFieldEncoding::U8,
                EepromFieldConfidence::StronglyRelated,
                false,
            ),
            (
                0xb0,
                0xb3,
                EepromFieldEncoding::U32Le,
                EepromFieldConfidence::Confirmed,
                false,
            ),
            (
                0xb4,
                0xb7,
                EepromFieldEncoding::U32Le,
                EepromFieldConfidence::Confirmed,
                false,
            ),
            (
                0x4a,
                0x4a,
                EepromFieldEncoding::RawBytes,
                EepromFieldConfidence::Confirmed,
                false,
            ),
            (
                0x5c,
                0x5f,
                EepromFieldEncoding::RawBytes,
                EepromFieldConfidence::Confirmed,
                false,
            ),
            (
                0xc2,
                0xcb,
                EepromFieldEncoding::Ascii,
                EepromFieldConfidence::Confirmed,
                true,
            ),
            (
                0x82,
                0x85,
                EepromFieldEncoding::RawBytes,
                EepromFieldConfidence::StronglyRelated,
                false,
            ),
            (
                0x98,
                0x98,
                EepromFieldEncoding::RawBytes,
                EepromFieldConfidence::StronglyRelated,
                false,
            ),
        ]
    );

    let waste = l1300
        .read_only_fields
        .iter()
        .find(|field| field.address == 0x26)
        .unwrap();
    assert_eq!(waste.end_address, 0x27);
    assert_eq!(waste.byte_len(), 2);
    assert_eq!(waste.encoding, EepromFieldEncoding::U16Le);
    assert_eq!(waste.confidence, EepromFieldConfidence::Confirmed);

    let serial = l1300
        .read_only_fields
        .iter()
        .find(|field| field.address == 0xc2)
        .unwrap();
    assert_eq!(serial.end_address, 0xcb);
    assert_eq!(serial.encoding, EepromFieldEncoding::Ascii);
    assert!(serial.sensitive);

    let related_unknown = l1300
        .read_only_fields
        .iter()
        .find(|field| field.address == 0x58)
        .unwrap();
    assert_eq!(
        related_unknown.confidence,
        EepromFieldConfidence::RelatedUnknown
    );
    assert_eq!(related_unknown.encoding, EepromFieldEncoding::RawBytes);
}

#[test]
fn rejects_read_only_field_with_encoding_length_mismatch() {
    let source = r#"
        [[EPSON]]
        models = ["Bad"]
        read_only_fields = [
          { range = [0x10, 0x12], label = "Bad counter", encoding = "u16le", confidence = "confirmed", evidence = "test" },
        ]
    "#;

    assert!(matches!(
        from_toml(source),
        Err(SpecError::ReadOnlyFieldLengthMismatch { .. })
    ));
}

#[test]
fn rejects_reset_lengths_that_do_not_match_addresses() {
    let source = r#"
        [[EPSON]]
        models = ["Bad"]
        mem = [{ addr = [1, 2], desc = "Waste counter", reset = [0] }]
    "#;

    assert!(matches!(
        from_toml(source),
        Err(SpecError::ResetLengthMismatch { .. })
    ));
}

#[test]
fn metadata_errors_tell_what_is_wrong() {
    let mut group = group_of(&["Bad"]);
    group.read_length = 3;
    assert!(matches!(
        refused(group),
        SpecError::InvalidAddressWidth { value: 3, .. }
    ));

    let mut group = group_of(&["Bad"]);
    group.memory_low = 2;
    group.memory_high = 1;
    assert!(matches!(
        refused(group),
        SpecError::InvalidMemoryRange { low: 2, high: 1 }
    ));

    let mut group = group_of(&["Bad"]);
    group.write_key = Some("short".to_owned());
    assert!(matches!(
        refused(group),
        SpecError::InvalidWriteKeyLength { length: 5 }
    ));

    let mut group = group_of(&["Bad"]);
    group.write_key = Some("K€YK€YKE".to_owned());
    assert!(matches!(refused(group), SpecError::NonLatin1WriteKey));

    let mut group = group_of(&["Bad"]);
    group.mem.push(RawMemoryOperation {
        addr: Vec::new(),
        desc: "Nothing".to_owned(),
        reset: Vec::new(),
        min: None,
    });
    assert!(matches!(
        refused(group),
        SpecError::EmptyMemoryOperation { .. }
    ));

    let mut group = group_of(&["Bad"]);
    group.read_only_fields.push(field_of(None, None));
    assert!(matches!(
        refused(group),
        SpecError::InvalidReadOnlyFieldLocation { .. }
    ));

    let mut group = group_of(&["Bad"]);
    group.read_only_fields.push(field_of(None, Some((5, 4))));
    assert!(matches!(
        refused(group),
        SpecError::InvalidReadOnlyFieldRange { .. }
    ));

    let mut group = group_of(&["Bad"]);
    group.read_only_fields.push(field_of(Some(0x100), None));
    assert!(matches!(
        refused(group),
        SpecError::ReadOnlyFieldOutsideMemoryRange { .. }
    ));

    let mut group = group_of(&["Bad"]);
    let mut field = field_of(Some(1), None);
    field.encoding = "u7".to_owned();
    group.read_only_fields.push(field);
    assert!(matches!(
        refused(group),
        SpecError::InvalidReadOnlyFieldEncoding { .. }
    ));

    let mut group = group_of(&["Bad"]);
    let mut field = field_of(Some(1), None);
    field.confidence = "certain".to_owned();
    group.read_only_fields.push(field);
    assert!(matches!(
        refused(group),
        SpecError::InvalidReadOnlyFieldConfidence { .. }
    ));

    let mut group = group_of(&["Bad"]);
    group.read_only_fields.push(field_of(Some(1), None));
    group.read_only_fields.push(field_of(Some(1), None));
    let error = refused(group);
    assert!(matches!(
        error,
        SpecError::OverlappingReadOnlyFields { .. }
    ));
    assert_eq!(
        error.message(),
        "read-only EEPROM fields \"Field\" and \"Field\" overlap"
    );
}

#[test]
fn a_later_group_replaces_a_model() {
    let mut first = group_of(&["A", "B"]);
    first.rkey = 1;
    let mut second = group_of(&["B"]);
    second.rkey = 2;
    let database = ModelDatabase::from_raw(&RawDatabase {
        epson: vec![first, second],
    })
    .unwrap();
    assert_eq!(database.models(), ["A", "B"]);
    assert_eq!(database.get("A").unwrap().read_key, 1);
    assert_eq!(database.get("B").unwrap().read_key, 2);
    assert!(database.get("C").is_none());
}

#[test]
fn parses_standard_fields_and_aliases() {
    let identity = PrinterIdentity::parse(
        "MANUFACTURER:EPSON;MODEL:XP-352 Series;COMMAND SET:ESCPL2,BDC;SN:123;",
    )
    .ok()
    .unwrap();

    assert_eq!(text(identity.manufacturer()), Some("EPSON"));
    assert_eq!(text(identity.model()), Some("XP-352 Series"));
    assert_eq!(identity.detected_model().as_deref(), Some("XP-352"));
    assert_eq!(text(identity.serial_number()), Some("123"));
    assert_eq!(identity.command_set(), &["ESCPL2", "BDC"]);
}

#[test]
fn rejects_non_ascii_identifiers() {
    assert!(
        PrinterIdentity::parse("MFG:EPSON;MDL:é;").unwrap_err() == IdentityParseError::NonAscii
    );
}

#[test]
fn rejects_fields_without_a_separator() {
    assert!(matches!(
        PrinterIdentity::parse("MFG:EPSON;invalid;"),
        Err(IdentityParseError::MalformedField { .. })
    ));
}

#[test]
fn channel_operations_verify_the_model_first() {
    let database = ModelDatabase::builtin().unwrap();
    let spec = model("C90");
    let matching = PrinterIdentity::parse("MFG:EPSON;MDL:C90;").ok().unwrap();
    let other = PrinterIdentity::parse("MFG:EPSON;MDL:XP-352;").ok().unwrap();
    let unknown = PrinterIdentity::parse("MFG:EPSON;MDL:Unheard;").ok().unwrap();

    let mut channel = ScriptedControlChannel::new();
    channel.expect_reply(encode_command(*b"st", &[1]).unwrap(), b"READY");
    assert_eq!(
        channel_status_output(&mut channel, &matching, &database, false).unwrap(),
        "model: C90\nstatus: READY\nstatus-hex: 5245414459"
    );
    channel.assert_finished();

    let mut channel = ScriptedControlChannel::new();
    assert_eq!(
        channel_status_output(&mut channel, &unknown, &database, false).unwrap_err(),
        "SNMP printer identity does not resolve to a built-in Epson model; refusing Epson status request"
    );

    let mut channel = ScriptedControlChannel::new();
    assert_eq!(
        channel_eeprom_read_output(&mut channel, &other, &spec, "C90", &[0x0c], false)
            .unwrap_err(),
        "printer identity model \"XP-352\" does not match requested model \"C90\""
    );
    channel.expect_reply(
        encode_eeprom_read(&spec, 0x0c).unwrap(),
        b"@BDC PS EE:0C4200;",
    );
    let output =
        channel_eeprom_read_output(&mut channel, &matching, &spec, "C90", &[0x0c], true).unwrap();
    assert!(output.contains("\"42\"") || output.contains("66"));
    channel.assert_finished();
}

#[test]
fn a_channel_dump_reads_every_address_of_the_range() {
    let mut spec = model("C90");
    spec.memory_low = 0x0c;
    spec.memory_high = 0x0e;
    let identity = PrinterIdentity::parse("MFG:EPSON;MDL:C90;").ok().unwrap();
    let mut channel = ScriptedControlChannel::new();
    for (address, reply) in [
        (0x0c, &b"@BDC PS EE:0C1000;"[..]),
        (0x0d, &b"@BDC PS EE:0D2000;"[..]),
        (0x0e, &b"@BDC PS EE:0E3000;"[..]),
    ] {
        channel.expect_reply(encode_eeprom_read(&spec, address).unwrap(), reply);
    }
    assert_eq!(
        channel_eeprom_dump(&mut channel, &identity, &spec, "C90").unwrap(),
        [0x10, 0x20, 0x30]
    );
    channel.assert_finished();
}

#[test]
fn read_replies_carry_hexadecimal_digits_alone() {
    for reply in [
        b"EE:+1+1+1;".as_slice(),
        b"EE:00+1+1;",
        b"EE:0000+1;",
        b"EE:-1-1-1;",
        b"EE: 1 1 1;",
        b"EE:00000g;",
        b"EE:00:000;",
    ] {
        let digits = std::str::from_utf8(&reply[3..9]).unwrap();
        for width in [AddressWidth::One, AddressWidth::Two] {
            assert_eq!(
                parse_eeprom_read_reply(reply, width),
                Err(CommandError::InvalidReadReply {
                    reason: format!("invalid EEPROM hex: {digits:?}"),
                })
            );
        }
    }
    assert_eq!(
        parse_eeprom_read_reply(b"EE:aBcDeF;EE:000000;", AddressWidth::Two),
        Ok(EepromReadReply { address: 0xabcd, value: 0xef })
    );
    assert_eq!(
        parse_eeprom_read_reply(b"EE:aBcDeF;", AddressWidth::One),
        Ok(EepromReadReply { address: 0xab, value: 0xcd })
    );
}

#[test]
fn a_default_database_knows_no_model() {
    let database = ModelDatabase::default();
    assert!(database.models().is_empty());
    assert!(database.get("C90").is_none());
}

#[test]
fn models_are_listed_under_their_own_names() {
    let database = ModelDatabase::builtin().unwrap();
    for name in database.models() {
        assert_eq!(database.get(&name).unwrap().model, name);
    }
}
