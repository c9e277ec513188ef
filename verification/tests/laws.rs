//! Laws of the library on concrete values.
use reink::arguments::{CounterResetSelection, EEPROM_COUNTER_RESET_CONFIRMATION};
use reink::command::{encode_eeprom_read, encode_eeprom_write};
use reink::commands::{
    next_step, Change, Command, Facts, NewFileFacts, NextStep, SessionTask, UsbSelection,
};
use reink::controller::{EepromWriteOptions, EpsonController, EpsonError};
use reink::database::ModelDatabase;
use reink::dialog::read_update;
use reink::discovery::{devices_for_service, IpAddress};
use reink::epson::{CounterResetTarget, EpsonSpec};
use reink::gui::{Page, SourceMode};
use reink::identity::{IdentityParseError, PrinterIdentity};
use reink::items::Action;
use reink::offline::{analyze_binary_bytes, BinaryFinding};
use reink::packet::Packet;
use reink::platform::{ControlChannel, ControlError, Platform};
use reink::reassembly::{DebugTrafficDecoder, DebugTrafficDirection};
use reink::scan::read_number;
use reink::screen::ReinkGui;
use reink::session::{
    declared_counter_reset_updates, epson_d4_entry_command, validate_eeprom_updates,
};
use reink::text::{dec, hex};

fn model(name: &str) -> EpsonSpec {
    ModelDatabase::builtin()
        .unwrap()
        .get(name)
        .unwrap()
        .duplicate()
}

/// A channel that counts its requests and refuses them all.
struct Refusing {
    requests: Vec<Vec<u8>>,
}

impl ControlChannel for Refusing {
    type Origin = ();

    fn request(&mut self, request: &[u8]) -> Result<Vec<u8>, ControlError> {
        self.requests.push(request.to_vec());
        Err(ControlError::Protocol {
            message: "refused".to_owned(),
        })
    }
}

#[test]
fn requests_tell_addresses_and_values_apart() {
    let settings = model("C90");
    let read = encode_eeprom_read(&settings, 0x0c).unwrap();
    assert_ne!(read, encode_eeprom_read(&settings, 0x0d).unwrap());
    let write = encode_eeprom_write(&settings, 0x0c, 1).unwrap();
    assert_ne!(write, encode_eeprom_write(&settings, 0x0c, 2).unwrap());
    assert_ne!(write, encode_eeprom_write(&settings, 0x0d, 1).unwrap());
    assert_ne!(read, write);
}

#[test]
fn an_atomic_write_that_cannot_read_writes_nothing() {
    let settings = model("C90");
    let mut channel = Refusing { requests: vec![] };
    let error = EpsonController::new(&mut channel, &settings)
        .write_eeprom(
            &[(0x0c, 1), (0x0d, 2)],
            EepromWriteOptions {
                verify_read_back: true,
                atomic: true,
            },
        )
        .unwrap_err();
    assert!(matches!(error, EpsonError::Control(_)));
    assert_eq!(
        channel.requests,
        vec![encode_eeprom_read(&settings, 0x0c).unwrap()]
    );
}

#[test]
fn found_updates_pass_the_validation_of_a_session() {
    let database = ModelDatabase::builtin().unwrap();
    let command = Command::UsbEepromChange {
        selection: UsbSelection {
            vendor_id: 0x04b8,
            product_id: 1,
            interface: 0,
            alternate_setting: 0,
            bus_number: None,
            device_address: None,
        },
        model: "C90".to_owned(),
        change: Change::Reset {
            selection: CounterResetSelection::Waste,
        },
        backup_file: "backup.bin".to_owned(),
        confirmation: Some(EEPROM_COUNTER_RESET_CONFIRMATION.to_owned()),
    };
    let facts = Facts {
        new_file: Some(NewFileFacts {
            exists: false,
            missing_parent: None,
        }),
        image: None,
        candidate_found: false,
    };
    match next_step(Platform::Linux, &database, &command, &facts, false).unwrap() {
        NextStep::UsbSession {
            settings,
            task: SessionTask::Change { updates, .. },
            ..
        } => assert!(validate_eeprom_updates(&settings, &updates).is_ok()),
        other => panic!("unexpected step {other:?}"),
    }
}

#[test]
fn declared_resets_are_valid_plans() {
    let settings = model("XP-15000");
    let updates = declared_counter_reset_updates(&settings, CounterResetTarget::PlatenPad).unwrap();
    assert!(validate_eeprom_updates(&settings, &updates).is_ok());
}

#[test]
fn accepted_updates_lie_in_the_range_of_the_model() {
    let settings = model("C90");
    for address in ["0", "0xff", "256", "0xffff", "12"] {
        if let Ok((address, _)) = read_update(&settings, address, "0") {
            assert!((settings.memory_low..=settings.memory_high).contains(&address));
        }
    }
    assert!(read_update(&settings, "12", "0").is_ok());
}

#[test]
fn socket_addresses_have_keys_of_their_own() {
    let address = |last: u8| IpAddress {
        octets: vec![192, 0, 2, last],
        text: format!("192.0.2.{last}"),
    };
    let key = |last: u8, port: u16| devices_for_service("Printer", port, &[address(last)])[0].0.clone();
    assert_ne!(key(1, 631), key(2, 631));
    assert_ne!(key(1, 631), key(1, 632));
    assert!(key(1, 631) < key(2, 80));
}

#[test]
fn identity_errors_repeat_nothing_of_the_identifier() {
    let error = PrinterIdentity::parse("MFG:EPSON;SN-SECRET;").unwrap_err();
    assert!(error == IdentityParseError::MalformedField { field: "SN-SECRET".to_owned() });
    assert!(!error.message().contains("SECRET"));
    assert_eq!(error.redacted(), "MalformedField(<redacted>)");
    assert_eq!(IdentityParseError::NonAscii.redacted(), "NonAscii");
}

#[test]
fn long_names_of_fields_prevail() {
    let identity = PrinterIdentity::parse("MDL:short;MODEL:long;").ok().unwrap();
    assert_eq!(identity.model().map(String::as_str), Some("long"));
}

#[test]
fn encoded_requests_are_found_again() {
    let mut settings = model("L1300");
    settings.write_key = Some(b"12345678".to_vec());
    let mut bytes = vec![0, 1, 2];
    bytes.extend(encode_eeprom_read(&settings, 0x26).unwrap());
    let findings = analyze_binary_bytes(&bytes, false);
    assert_eq!(
        findings,
        vec![BinaryFinding::EepromRead {
            offset: 3,
            read_key: settings.read_key,
            address: 0x26,
        }]
    );
    let write = encode_eeprom_write(&settings, 0x26, 0x5a).unwrap();
    assert!(matches!(
        analyze_binary_bytes(&write, false)[..],
        [BinaryFinding::EepromWrite { offset: 0, address: 0x26, value: 0x5a, .. }]
    ));
}

#[test]
fn reassembly_keeps_every_byte_however_it_is_cut() {
    let first = Packet::new(2, 2, b"di\x01\x00\x01".to_vec(), 1, 0).unwrap().encode();
    let second = Packet::new(2, 2, b"st\x01\x00\x01".to_vec(), 1, 0).unwrap().encode();
    let stream = [first, second].concat();
    for cut in 1..stream.len() {
        let mut decoder = DebugTrafficDecoder::default();
        decoder.push(DebugTrafficDirection::Tx, &epson_d4_entry_command());
        let mut transfers = decoder.push(DebugTrafficDirection::Tx, &stream[..cut]);
        assert_eq!(decoder.push(DebugTrafficDirection::Tx, &[]).len(), 1);
        transfers.extend(decoder.push(DebugTrafficDirection::Tx, &stream[cut..]));
        assert_eq!(transfers.len(), 2);
        let joined: Vec<u8> = transfers
            .into_iter()
            .flat_map(|transfer| transfer.bytes)
            .collect();
        assert_eq!(joined, stream);
        assert!(decoder.bytes.is_empty());
    }
}

#[test]
fn written_numbers_read_back() {
    for number in [0u32, 9, 10, 0x1f, 255, 65_535] {
        let decimal: Vec<char> = dec(u64::from(number)).chars().collect();
        assert_eq!(read_number(&decimal, 10, 65_535), Some(number));
        for upper in [false, true] {
            let digits: Vec<char> = hex(u64::from(number), 6, upper).chars().collect();
            assert_eq!(read_number(&digits, 16, 65_535), Some(number));
        }
    }
    assert_eq!(read_number(&['7'], 10, 6), None);
}

#[test]
fn pressing_starts_no_operation() {
    let mut gui = ReinkGui::new(SourceMode::Real, Platform::Linux);
    for action in [
        Action::ShowPage(Page::Tools),
        Action::SelectCandidate(0),
        Action::PrepareWrite,
        Action::PrepareRestore,
        Action::PrepareReset(CounterResetTarget::Waste),
        Action::RunValidation,
        Action::ReadStatus,
        Action::Run,
    ] {
        gui.press(action);
        assert!(!gui.usb_operation_in_progress());
    }
}
