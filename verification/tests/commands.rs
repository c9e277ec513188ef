//! The command line: its arguments, what each command comes to, and what it
//! prints.
use clap::{Arg, ArgAction, ArgMatches};

use reink::arguments::{
    declared_counter_reset_updates, is_sensitive_address, parse_eeprom_update, parse_u16, parse_u8,
    require_native_experimental_mutation_acknowledgement, selected_model, usb_device_selector,
    validate_confirmation, validate_eeprom_read_addresses, validate_eeprom_updates,
    validate_native_acknowledgement, validate_native_sensitive_addresses, validate_new_file_path,
    verify_requested_model, CounterResetSelection, UsbDeviceSelector,
    EEPROM_COUNTER_RESET_CONFIRMATION, EEPROM_RESTORE_CONFIRMATION, EEPROM_WRITE_CONFIRMATION,
    WINDOWS_NATIVE_EXPERIMENTAL_MUTATION_ACKNOWLEDGEMENT,
};
use reink::command::EepromReadReply;
use reink::commands::{
    next_step, usb_change_output, Change, Command, Facts, NativeSelection, NewFileFacts, NextStep,
    SessionTask, UsbSelection,
};
use reink::database::ModelDatabase;
use reink::discovery::{DeviceLocation, DiscoveredDevice};
use reink::epson::EpsonSpec;
use reink::identity::PrinterIdentity;
use reink::native::{
    finish_windows_native_operation, redact_identity_serials, windows_native_candidates_output,
    windows_native_eeprom_dump_output, windows_native_experimental_mutation_output,
    windows_native_identity_output, NativeCandidate, NativeCapabilities,
};
use reink::offline::{
    analyze_binary_bytes, ascii_wanted, refuse_offline_input, render_binary_findings,
    BinaryFinding, MAX_OFFLINE_BINARY_BYTES,
};
use reink::platform::Platform;
use reink::report::{
    counter_reset_output, eeprom_mutation_output, finish_usb_operation, parse_device_id,
    render_discovery, render_eeprom_dump, render_eeprom_readings, render_identity, render_model,
    render_models, render_printer_status, render_probe, setup_failure,
};
use reink::session::{
    ApplicationError, EepromImage, EpsonD4EntryProbeResult, SelectedUsbSessionOutcome,
    UsbCleanupStatus, UsbSessionCleanup,
};

/// A required option that takes a value.
fn option(name: &'static str) -> Arg {
    Arg::new(name).long(name).required(true).action(ArgAction::Set)
}

/// The options that select a USB device.
fn usb_options(command: clap::Command) -> clap::Command {
    command
        .arg(option("vendor-id").value_parser(parse_u16))
        .arg(option("product-id").value_parser(parse_u16))
        .arg(option("interface").value_parser(parse_u8))
        .arg(option("alternate-setting").required(false).value_parser(parse_u8))
        .arg(option("bus-number").required(false).value_parser(parse_u8))
        .arg(option("device-address").required(false).value_parser(parse_u8))
}

/// The options that select a printer behind the stock driver.
fn native_options(command: clap::Command) -> clap::Command {
    command
        .arg(option("vendor-id").value_parser(parse_u16))
        .arg(option("product-id").value_parser(parse_u16))
        .arg(option("interface").required(false).value_parser(parse_u8))
}

fn repeated(argument: Arg) -> Arg {
    argument.action(ArgAction::Append)
}

/// A command line over the value parsers of the library.
fn grammar() -> clap::Command {
    let change = |command: clap::Command, backup: &'static str| {
        usb_options(command)
            .arg(option("model"))
            .arg(option(backup))
            .arg(option("confirmation").required(false))
    };
    clap::Command::new("reink")
        .arg(Arg::new("json").long("json").global(true).action(ArgAction::SetTrue))
        .subcommand(clap::Command::new("models"))
        .subcommand(clap::Command::new("snmp-id"))
        .subcommand(clap::Command::new("snmp-status"))
        .subcommand(clap::Command::new("local-devices"))
        .subcommand(clap::Command::new("discover").arg(
            option("timeout-seconds").value_parser(clap::builder::ValueParser::from(parse_u16)),
        ))
        .subcommand(
            clap::Command::new("analyze-binary")
                .arg(Arg::new("input-file").required(true))
                .arg(Arg::new("include-ascii").long("include-ascii").action(ArgAction::SetTrue)),
        )
        .subcommand(
            clap::Command::new("snmp-eeprom-read")
                .arg(option("model"))
                .arg(repeated(option("address").value_parser(parse_u16))),
        )
        .subcommand(
            clap::Command::new("snmp-eeprom-dump").arg(option("model")).arg(option("output-file")),
        )
        .subcommand(usb_options(clap::Command::new("usb-id")))
        .subcommand(usb_options(clap::Command::new("usb-status")).arg(option("model")))
        .subcommand(
            change(clap::Command::new("usb-eeprom-write"), "backup-file")
                .arg(repeated(option("update").value_parser(parse_eeprom_update))),
        )
        .subcommand(
            change(clap::Command::new("usb-eeprom-restore"), "rollback-backup-file")
                .arg(option("input-file")),
        )
        .subcommand(
            change(clap::Command::new("usb-eeprom-reset"), "backup-file").arg(option("target")),
        )
        .subcommand(
            native_options(clap::Command::new("windows-native-eeprom-read"))
                .arg(option("model"))
                .arg(repeated(option("address").value_parser(parse_u16))),
        )
        .subcommand(
            native_options(clap::Command::new("windows-native-experimental-eeprom-write"))
                .arg(option("model"))
                .arg(repeated(option("update").value_parser(parse_eeprom_update)))
                .arg(option("backup-file"))
                .arg(option("confirmation").required(false))
                .arg(option("native-experimental-acknowledgement").required(false)),
        )
}

fn words(found: &ArgMatches, name: &str) -> String {
    found.get_one::<String>(name).unwrap().clone()
}

fn optional_words(found: &ArgMatches, name: &str) -> Option<String> {
    found.get_one::<String>(name).cloned()
}

fn number(found: &ArgMatches, name: &str) -> u16 {
    *found.get_one::<u16>(name).unwrap()
}

fn numbers(found: &ArgMatches, name: &str) -> Vec<u16> {
    found.get_many::<u16>(name).unwrap().copied().collect()
}

fn updates(found: &ArgMatches) -> Vec<(u16, u8)> {
    found.get_many::<(u16, u8)>("update").unwrap().copied().collect()
}

fn usb_selection(found: &ArgMatches) -> UsbSelection {
    UsbSelection {
        vendor_id: number(found, "vendor-id"),
        product_id: number(found, "product-id"),
        interface: *found.get_one::<u8>("interface").unwrap(),
        alternate_setting: found.get_one::<u8>("alternate-setting").copied().unwrap_or(0),
        bus_number: found.get_one::<u8>("bus-number").copied(),
        device_address: found.get_one::<u8>("device-address").copied(),
    }
}

fn native_selection(found: &ArgMatches) -> NativeSelection {
    NativeSelection {
        vendor_id: number(found, "vendor-id"),
        product_id: number(found, "product-id"),
        interface: found.get_one::<u8>("interface").copied(),
    }
}

fn usb_change(found: &ArgMatches, change: Change, backup: &str) -> Command {
    Command::UsbEepromChange {
        selection: usb_selection(found),
        model: words(found, "model"),
        change,
        backup_file: words(found, backup),
        confirmation: optional_words(found, "confirmation"),
    }
}

/// Whether JSON is asked for, and the command of a command line.
fn parse(arguments: &[&str]) -> (bool, Command) {
    let matches = grammar().try_get_matches_from(arguments).unwrap();
    let (name, found) = matches.subcommand().unwrap();
    let command = match name {
        "models" => Command::Models,
        "snmp-id" => Command::SnmpId,
        "snmp-status" => Command::SnmpStatus,
        "local-devices" => Command::LocalDevices,
        "discover" => Command::Discover {
            timeout_seconds: u64::from(number(found, "timeout-seconds")),
        },
        "analyze-binary" => Command::AnalyzeBinary {
            input_file: words(found, "input-file"),
            include_ascii: found.get_flag("include-ascii"),
        },
        "snmp-eeprom-read" => Command::SnmpEepromRead {
            model: words(found, "model"),
            addresses: numbers(found, "address"),
        },
        "snmp-eeprom-dump" => Command::SnmpEepromDump {
            model: words(found, "model"),
            output_file: words(found, "output-file"),
        },
        "usb-id" => Command::UsbId { selection: usb_selection(found) },
        "usb-status" => Command::UsbStatus {
            selection: usb_selection(found),
            model: words(found, "model"),
        },
        "usb-eeprom-write" => {
            usb_change(found, Change::Write { updates: updates(found) }, "backup-file")
        }
        "usb-eeprom-restore" => usb_change(
            found,
            Change::Restore { input_file: words(found, "input-file") },
            "rollback-backup-file",
        ),
        "usb-eeprom-reset" => {
            let selection = match words(found, "target").as_str() {
                "waste" => CounterResetSelection::Waste,
                "platen-pad" => CounterResetSelection::PlatenPad,
                other => panic!("unknown target {other}"),
            };
            usb_change(found, Change::Reset { selection }, "backup-file")
        }
        "windows-native-eeprom-read" => Command::WindowsNativeEepromRead {
            selection: native_selection(found),
            model: words(found, "model"),
            addresses: numbers(found, "address"),
        },
        "windows-native-experimental-eeprom-write" => Command::WindowsNativeEepromChange {
            selection: native_selection(found),
            model: words(found, "model"),
            change: Change::Write { updates: updates(found) },
            backup_file: words(found, "backup-file"),
            confirmation: optional_words(found, "confirmation"),
            acknowledgement: optional_words(found, "native-experimental-acknowledgement"),
        },
        other => panic!("unexpected command {other}"),
    };
    (matches.get_flag("json"), command)
}

fn builtin() -> ModelDatabase {
    ModelDatabase::builtin().unwrap()
}

fn model(name: &str) -> EpsonSpec {
    builtin().get(name).unwrap().clone()
}

fn usb_device() -> UsbSelection {
    UsbSelection {
        vendor_id: 0x04b8,
        product_id: 1234,
        interface: 0,
        alternate_setting: 0,
        bus_number: None,
        device_address: None,
    }
}

fn native_device() -> NativeSelection {
    NativeSelection { vendor_id: 0x04b8, product_id: 0x1234, interface: None }
}

/// The facts once a new file may take its path.
fn free_path() -> Facts {
    Facts {
        new_file: Some(NewFileFacts { exists: false, missing_parent: None }),
        image: None,
        candidate_found: false,
    }
}

#[test]
fn main_parses_cli_commands() {
    let (json, command) = parse(&["reink", "models"]);
    assert!(!json);
    assert!(matches!(command, Command::Models));
    let (_, command) = parse(&["reink", "discover", "--timeout-seconds", "1"]);
    assert!(matches!(command, Command::Discover { timeout_seconds: 1 }));
    let (json, command) = parse(&["reink", "--json", "snmp-id"]);
    assert!(json);
    assert!(matches!(command, Command::SnmpId));
    let (_, command) = parse(&["reink", "analyze-binary", "capture.bin"]);
    assert!(matches!(
        command,
        Command::AnalyzeBinary { input_file, include_ascii: false } if input_file == "capture.bin"
    ));
    let (_, command) = parse(&["reink", "snmp-status"]);
    assert!(matches!(command, Command::SnmpStatus));
    let (_, command) = parse(&[
        "reink", "snmp-eeprom-read", "--model", "C90", "--address", "0x000c",
    ]);
    assert!(matches!(
        command,
        Command::SnmpEepromRead { model, addresses }
            if model == "C90" && addresses == vec![0x000c]
    ));
    let (_, command) = parse(&[
        "reink", "snmp-eeprom-dump", "--model", "C90", "--output-file", "new-image.bin",
    ]);
    assert!(matches!(
        command,
        Command::SnmpEepromDump { model, output_file }
            if model == "C90" && output_file == "new-image.bin"
    ));
    let (_, command) = parse(&["reink", "local-devices"]);
    assert!(matches!(command, Command::LocalDevices));
    let (_, command) = parse(&[
        "reink", "usb-id", "--vendor-id", "0x04b8", "--product-id", "1234", "--interface", "0",
    ]);
    assert!(matches!(
        command,
        Command::UsbId {
            selection: UsbSelection {
                vendor_id: 0x04b8,
                product_id: 1234,
                interface: 0,
                alternate_setting: 0,
                bus_number: None,
                device_address: None,
            },
        }
    ));
    let (_, command) = parse(&[
        "reink", "usb-status", "--vendor-id", "0x04b8", "--product-id", "1234", "--interface",
        "0", "--model", "C90",
    ]);
    assert!(matches!(
        command,
        Command::UsbStatus {
            selection: UsbSelection {
                vendor_id: 0x04b8,
                product_id: 1234,
                interface: 0,
                alternate_setting: 0,
                bus_number: None,
                device_address: None,
            },
            model,
        } if model == "C90"
    ));
    let (_, command) = parse(&[
        "reink", "usb-eeprom-write", "--vendor-id", "0x04b8", "--product-id", "1234",
        "--interface", "0", "--model", "C90", "--update", "0x000c=0xff", "--backup-file",
        "new-backup.bin", "--confirmation", EEPROM_WRITE_CONFIRMATION,
    ]);
    assert!(matches!(
        command,
        Command::UsbEepromChange {
            change: Change::Write { updates },
            confirmation: Some(_),
            ..
        } if updates == vec![(0x000c, 0xff)]
    ));
    let (_, command) = parse(&[
        "reink", "usb-eeprom-restore", "--vendor-id", "0x04b8", "--product-id", "1234",
        "--interface", "0", "--model", "C90", "--input-file", "image.bin",
        "--rollback-backup-file", "new-rollback.bin", "--confirmation",
        EEPROM_RESTORE_CONFIRMATION,
    ]);
    assert!(matches!(
        command,
        Command::UsbEepromChange {
            change: Change::Restore { .. },
            confirmation: Some(_),
            ..
        }
    ));
    let (_, command) = parse(&[
        "reink", "usb-eeprom-reset", "--vendor-id", "0x04b8", "--product-id", "1234",
        "--interface", "0", "--model", "C90", "--target", "waste", "--backup-file",
        "new-reset-backup.bin", "--confirmation", EEPROM_COUNTER_RESET_CONFIRMATION,
    ]);
    assert!(matches!(
        command,
        Command::UsbEepromChange {
            change: Change::Reset { selection: CounterResetSelection::Waste },
            confirmation: Some(_),
            ..
        }
    ));
}

#[test]
fn tests_parses_cli_commands() {
    let (json, command) = parse(&["reink", "models"]);
    assert!(!json);
    assert!(matches!(command, Command::Models));
    let (_, command) = parse(&["reink", "discover", "--timeout-seconds", "1"]);
    assert!(matches!(command, Command::Discover { timeout_seconds: 1 }));
    let (json, command) = parse(&["reink", "--json", "snmp-id"]);
    assert!(json);
    assert!(matches!(command, Command::SnmpId));
    let (_, command) = parse(&["reink", "analyze-binary", "capture.bin"]);
    assert!(matches!(
        command,
        Command::AnalyzeBinary { input_file, include_ascii: false } if input_file == "capture.bin"
    ));
    let (_, command) = parse(&["reink", "snmp-status"]);
    assert!(matches!(command, Command::SnmpStatus));
    let (_, command) = parse(&[
        "reink", "snmp-eeprom-read", "--model", "C90", "--address", "0x000c",
    ]);
    assert!(matches!(
        command,
        Command::SnmpEepromRead { model, addresses }
            if model == "C90" && addresses == vec![0x000c]
    ));
    let (_, command) = parse(&[
        "reink", "snmp-eeprom-dump", "--model", "C90", "--output-file", "new-image.bin",
    ]);
    assert!(matches!(
        command,
        Command::SnmpEepromDump { model, output_file }
            if model == "C90" && output_file == "new-image.bin"
    ));
    let (_, command) = parse(&["reink", "local-devices"]);
    assert!(matches!(command, Command::LocalDevices));
    let (_, command) = parse(&[
        "reink", "usb-id", "--vendor-id", "0x04b8", "--product-id", "1234", "--interface", "0",
    ]);
    assert!(matches!(
        command,
        Command::UsbId {
            selection: UsbSelection {
                vendor_id: 0x04b8,
                product_id: 1234,
                interface: 0,
                alternate_setting: 0,
                bus_number: None,
                device_address: None,
            },
        }
    ));
    let (_, command) = parse(&[
        "reink", "usb-status", "--vendor-id", "0x04b8", "--product-id", "1234", "--interface",
        "0", "--model", "C90",
    ]);
    assert!(matches!(
        command,
        Command::UsbStatus {
            selection: UsbSelection {
                vendor_id: 0x04b8,
                product_id: 1234,
                interface: 0,
                alternate_setting: 0,
                bus_number: None,
                device_address: None,
            },
            model,
        } if model == "C90"
    ));
    let (_, command) = parse(&[
        "reink", "usb-eeprom-write", "--vendor-id", "0x04b8", "--product-id", "1234",
        "--interface", "0", "--model", "C90", "--update", "0x000c=0xff", "--backup-file",
        "new-backup.bin", "--confirmation", EEPROM_WRITE_CONFIRMATION,
    ]);
    assert!(matches!(
        command,
        Command::UsbEepromChange {
            change: Change::Write { updates },
            confirmation: Some(_),
            ..
        } if updates == vec![(0x000c, 0xff)]
    ));
    let (_, command) = parse(&[
        "reink", "usb-eeprom-restore", "--vendor-id", "0x04b8", "--product-id", "1234",
        "--interface", "0", "--model", "C90", "--input-file", "image.bin",
        "--rollback-backup-file", "new-rollback.bin", "--confirmation",
        EEPROM_RESTORE_CONFIRMATION,
    ]);
    assert!(matches!(
        command,
        Command::UsbEepromChange {
            change: Change::Restore { .. },
            confirmation: Some(_),
            ..
        }
    ));
    let (_, command) = parse(&[
        "reink", "usb-eeprom-reset", "--vendor-id", "0x04b8", "--product-id", "1234",
        "--interface", "0", "--model", "C90", "--target", "waste", "--backup-file",
        "new-reset-backup.bin", "--confirmation", EEPROM_COUNTER_RESET_CONFIRMATION,
    ]);
    assert!(matches!(
        command,
        Command::UsbEepromChange {
            change: Change::Reset { selection: CounterResetSelection::Waste },
            confirmation: Some(_),
            ..
        }
    ));
}

#[test]
fn main_parses_read_only_windows_native_commands_without_mutation_selectors() {
    let (_, command) = parse(&[
        "reink", "windows-native-eeprom-read", "--vendor-id", "0x04b8", "--product-id", "0x1234",
        "--interface", "0", "--model", "C90", "--address", "0x000c",
    ]);
    assert!(matches!(
        command,
        Command::WindowsNativeEepromRead {
            selection: NativeSelection {
                vendor_id: 0x04b8,
                product_id: 0x1234,
                interface: Some(0),
            },
            model,
            addresses,
        } if model == "C90" && addresses == [0x000c]
    ));
}

#[test]
fn tests_parses_read_only_windows_native_commands_without_mutation_selectors() {
    let (_, command) = parse(&[
        "reink", "windows-native-eeprom-read", "--vendor-id", "0x04b8", "--product-id", "0x1234",
        "--interface", "0", "--model", "C90", "--address", "0x000c",
    ]);
    assert!(matches!(
        command,
        Command::WindowsNativeEepromRead {
            selection: NativeSelection {
                vendor_id: 0x04b8,
                product_id: 0x1234,
                interface: Some(0),
            },
            model,
            addresses,
        } if model == "C90" && addresses == [0x000c]
    ));
}

#[test]
fn main_parses_experimental_native_write_with_distinct_acknowledgement() {
    let (_, command) = parse(&[
        "reink", "windows-native-experimental-eeprom-write", "--vendor-id", "0x04b8",
        "--product-id", "0x1234", "--model", "C90", "--update", "0x000c=0xff", "--backup-file",
        "new.bin", "--confirmation", EEPROM_WRITE_CONFIRMATION,
        "--native-experimental-acknowledgement",
        WINDOWS_NATIVE_EXPERIMENTAL_MUTATION_ACKNOWLEDGEMENT,
    ]);
    assert!(matches!(
        command,
        Command::WindowsNativeEepromChange { acknowledgement: Some(_), .. }
    ));
    assert!(validate_confirmation(
        Some(EEPROM_WRITE_CONFIRMATION),
        EEPROM_WRITE_CONFIRMATION,
        "test"
    )
    .is_ok());
    assert_ne!(
        EEPROM_WRITE_CONFIRMATION,
        WINDOWS_NATIVE_EXPERIMENTAL_MUTATION_ACKNOWLEDGEMENT
    );
}

#[test]
fn tests_parses_experimental_native_write_with_distinct_acknowledgement() {
    let (_, command) = parse(&[
        "reink", "windows-native-experimental-eeprom-write", "--vendor-id", "0x04b8",
        "--product-id", "0x1234", "--model", "C90", "--update", "0x000c=0xff", "--backup-file",
        "new.bin", "--confirmation", EEPROM_WRITE_CONFIRMATION,
        "--native-experimental-acknowledgement",
        WINDOWS_NATIVE_EXPERIMENTAL_MUTATION_ACKNOWLEDGEMENT,
    ]);
    assert!(matches!(
        command,
        Command::WindowsNativeEepromChange { acknowledgement: Some(_), .. }
    ));
    assert!(validate_confirmation(
        Some(EEPROM_WRITE_CONFIRMATION),
        EEPROM_WRITE_CONFIRMATION,
        "test"
    )
    .is_ok());
    assert_ne!(
        EEPROM_WRITE_CONFIRMATION,
        WINDOWS_NATIVE_EXPERIMENTAL_MUTATION_ACKNOWLEDGEMENT
    );
}

#[test]
fn main_renders_json_without_credentials() {
    assert_eq!(
        render_models(&["C90".to_owned()], true),
        r#"{"models":["C90"]}"#
    );
    let identity = PrinterIdentity::parse("MFG:EPSON;MDL:C90;").ok().unwrap();
    let database = builtin();
    assert_eq!(
        render_identity(&identity, &database, true),
        r#"{"detected_model":"C90","identity":{"MDL":"C90","MFG":"EPSON"},"resolved_model":"C90"}"#
    );
}

#[test]
fn tests_renders_json_without_credentials() {
    assert_eq!(
        render_models(&["C90".to_owned()], true),
        r#"{"models":["C90"]}"#
    );
    let identity = PrinterIdentity::parse("MFG:EPSON;MDL:C90;").ok().unwrap();
    let database = builtin();
    assert_eq!(
        render_identity(&identity, &database, true),
        r#"{"detected_model":"C90","identity":{"MDL":"C90","MFG":"EPSON"},"resolved_model":"C90"}"#
    );
}

#[test]
fn main_reports_an_unmatched_identity_without_enabling_device_actions() {
    let identity = PrinterIdentity::parse("MFG:EPSON;MDL:Unknown;").ok().unwrap();
    let database = builtin();

    assert_eq!(
        render_identity(&identity, &database, false),
        "MDL: Unknown\nMFG: EPSON\ndetected-model: Unknown\nresolved-model: no built-in match"
    );
}

#[test]
fn tests_reports_an_unmatched_identity_without_enabling_device_actions() {
    let identity = PrinterIdentity::parse("MFG:EPSON;MDL:Unknown;").ok().unwrap();
    let database = builtin();

    assert_eq!(
        render_identity(&identity, &database, false),
        "MDL: Unknown\nMFG: EPSON\ndetected-model: Unknown\nresolved-model: no built-in match"
    );
}

#[test]
fn main_parses_decimal_and_hexadecimal_usb_identifiers() {
    assert_eq!(parse_u16("0x04b8").unwrap(), 0x04b8);
    assert_eq!(parse_u16("1208").unwrap(), 1208);
    assert!(parse_u16("0xnope").is_err());
}

#[test]
fn tests_parses_decimal_and_hexadecimal_usb_identifiers() {
    assert_eq!(parse_u16("0x04b8").unwrap(), 0x04b8);
    assert_eq!(parse_u16("1208").unwrap(), 1208);
    assert!(parse_u16("0xnope").is_err());
}

#[test]
fn main_parses_eeprom_updates_and_rejects_malformed_values() {
    assert_eq!(parse_eeprom_update("0x000c=0xff").unwrap(), (0x000c, 0xff));
    assert_eq!(parse_eeprom_update("12=34").unwrap(), (12, 34));
    assert!(parse_eeprom_update("0x000c").is_err());
    assert!(parse_eeprom_update("0x000c=0x100").is_err());
}

#[test]
fn tests_parses_eeprom_updates_and_rejects_malformed_values() {
    assert_eq!(parse_eeprom_update("0x000c=0xff").unwrap(), (0x000c, 0xff));
    assert_eq!(parse_eeprom_update("12=34").unwrap(), (12, 34));
    assert!(parse_eeprom_update("0x000c").is_err());
    assert!(parse_eeprom_update("0x000c=0x100").is_err());
}

#[test]
fn main_offline_binary_analysis_finds_factory_requests_and_never_reads_past_input() {
    let bytes = [
        b'x', b'|', b'|', 0x07, 0x00, 0x34, 0x12, b'A', 0xbe, 0xa0, 0x78, 0x56, b'|', b'|', 0x10,
        0x00, 0x34, 0x12, b'B', 0xbd, 0x21, 0x34, 0x12, 0xfe, b'k', b'e', b'y', 0, 0, 0, 0, 0,
        b'p', b'r', b'i', b'n', b't', b'a', b'b', b'l', b'e', b'!', 0, b'|', b'|', 0x04, 0x00,
        0x34, 0x12, b'A', 0xbe, 0xa0,
    ];
    let findings = analyze_binary_bytes(&bytes, true);

    assert_eq!(
        findings,
        vec![
            BinaryFinding::EepromRead {
                offset: 1,
                read_key: 0x1234,
                address: 0x5678,
            },
            BinaryFinding::EepromWrite {
                offset: 12,
                read_key: 0x1234,
                address: 0x1234,
                value: 0xfe,
                write_key: b"key\0\0\0\0\0".to_vec(),
            },
            BinaryFinding::InvalidFactoryRequest {
                offset: 43,
                reason: "declared factory payload is shorter than its five-byte header",
            },
            BinaryFinding::PrintableAscii {
                offset: 32,
                value: "printable!".to_owned(),
            },
        ]
    );
}

#[test]
fn tests_offline_binary_analysis_finds_factory_requests_and_never_reads_past_input() {
    let bytes = [
        b'x', b'|', b'|', 0x07, 0x00, 0x34, 0x12, b'A', 0xbe, 0xa0, 0x78, 0x56, b'|', b'|', 0x10,
        0x00, 0x34, 0x12, b'B', 0xbd, 0x21, 0x34, 0x12, 0xfe, b'k', b'e', b'y', 0, 0, 0, 0, 0,
        b'p', b'r', b'i', b'n', b't', b'a', b'b', b'l', b'e', b'!', 0, b'|', b'|', 0x04, 0x00,
        0x34, 0x12, b'A', 0xbe, 0xa0,
    ];
    let findings = analyze_binary_bytes(&bytes, true);

    assert_eq!(
        findings,
        vec![
            BinaryFinding::EepromRead {
                offset: 1,
                read_key: 0x1234,
                address: 0x5678,
            },
            BinaryFinding::EepromWrite {
                offset: 12,
                read_key: 0x1234,
                address: 0x1234,
                value: 0xfe,
                write_key: b"key\0\0\0\0\0".to_vec(),
            },
            BinaryFinding::InvalidFactoryRequest {
                offset: 43,
                reason: "declared factory payload is shorter than its five-byte header",
            },
            BinaryFinding::PrintableAscii {
                offset: 32,
                value: "printable!".to_owned(),
            },
        ]
    );
}

#[test]
fn main_offline_binary_analysis_can_exclude_printable_ascii() {
    assert!(analyze_binary_bytes(b"ABCDEFGH", false).is_empty());
}

#[test]
fn tests_offline_binary_analysis_can_exclude_printable_ascii() {
    assert!(analyze_binary_bytes(b"ABCDEFGH", false).is_empty());
}

#[test]
fn main_renders_status_without_emitting_terminal_control_characters() {
    assert_eq!(
        render_printer_status("C90", b"@BDC ST2\r\nREADY\r\n", false),
        "model: C90\nstatus: @BDC ST2\\r\\nREADY\\r\\n\nstatus-hex: 40424443205354320D0A52454144590D0A"
    );
}

#[test]
fn tests_renders_status_without_emitting_terminal_control_characters() {
    assert_eq!(
        render_printer_status("C90", b"@BDC ST2\r\nREADY\r\n", false),
        "model: C90\nstatus: @BDC ST2\\r\\nREADY\\r\\n\nstatus-hex: 40424443205354320D0A52454144590D0A"
    );
}

#[test]
fn main_renders_read_only_eeprom_values_and_rejects_unsafe_addresses() {
    let spec = &model("C90");
    assert!(validate_eeprom_read_addresses(spec, &[spec.memory_low, spec.memory_high]).is_ok());
    assert!(validate_eeprom_read_addresses(spec, &[]).is_err());
    assert!(validate_eeprom_read_addresses(spec, &[spec.memory_low, spec.memory_low]).is_err());
    assert!(validate_eeprom_read_addresses(spec, &[spec.memory_high.saturating_add(1)]).is_err());
    assert_eq!(
        render_eeprom_readings(
            "C90",
            &[EepromReadReply {
                address: 0x0c,
                value: 0x42,
            }],
            false,
        ),
        "model: C90\n0x000c: 0x42"
    );
}

#[test]
fn tests_renders_read_only_eeprom_values_and_rejects_unsafe_addresses() {
    let spec = &model("C90");
    assert!(validate_eeprom_read_addresses(spec, &[spec.memory_low, spec.memory_high]).is_ok());
    assert!(validate_eeprom_read_addresses(spec, &[]).is_err());
    assert!(validate_eeprom_read_addresses(spec, &[spec.memory_low, spec.memory_low]).is_err());
    assert!(validate_eeprom_read_addresses(spec, &[spec.memory_high.saturating_add(1)]).is_err());
    assert_eq!(
        render_eeprom_readings(
            "C90",
            &[EepromReadReply {
                address: 0x0c,
                value: 0x42,
            }],
            false,
        ),
        "model: C90\n0x000c: 0x42"
    );
}

#[test]
fn main_rejects_a_model_that_does_not_match_the_printer_identity() {
    let matching = PrinterIdentity::parse("MFG:EPSON;MDL:C90;").ok().unwrap();
    let mismatched = PrinterIdentity::parse("MFG:EPSON;MDL:XP-352;").ok().unwrap();

    assert!(verify_requested_model(&matching, "C90").is_ok());
    assert!(verify_requested_model(&mismatched, "C90").is_err());
}

#[test]
fn tests_rejects_a_model_that_does_not_match_the_printer_identity() {
    let matching = PrinterIdentity::parse("MFG:EPSON;MDL:C90;").ok().unwrap();
    let mismatched = PrinterIdentity::parse("MFG:EPSON;MDL:XP-352;").ok().unwrap();

    assert!(verify_requested_model(&matching, "C90").is_ok());
    assert!(verify_requested_model(&mismatched, "C90").is_err());
}

#[test]
fn main_validates_write_gates_before_usb_access() {
    let spec = &model("C90");
    assert!(validate_confirmation(
        Some(EEPROM_WRITE_CONFIRMATION),
        EEPROM_WRITE_CONFIRMATION,
        "usb-eeprom-write"
    )
    .is_ok());
    assert!(validate_confirmation(
        Some("I_CONFIRM_WRITES"),
        EEPROM_WRITE_CONFIRMATION,
        "usb-eeprom-write"
    )
    .is_err());
    assert!(validate_eeprom_updates(spec, &[(spec.memory_low, 1)]).is_ok());
    assert!(validate_eeprom_updates(spec, &[]).is_err());
    assert!(validate_eeprom_updates(spec, &[(spec.memory_low, 1), (spec.memory_low, 2)]).is_err());
    assert!(validate_eeprom_updates(spec, &[(spec.memory_high.saturating_add(1), 1)]).is_err());
    assert!(validate_confirmation(
        Some(EEPROM_COUNTER_RESET_CONFIRMATION),
        EEPROM_COUNTER_RESET_CONFIRMATION,
        "usb-eeprom-reset"
    )
    .is_ok());
    assert!(validate_confirmation(
        Some("I_CONFIRM_THIS_WILL_RESET_COUNTERS"),
        EEPROM_COUNTER_RESET_CONFIRMATION,
        "usb-eeprom-reset"
    )
    .is_err());
}

#[test]
fn tests_validates_write_gates_before_usb_access() {
    let spec = &model("C90");
    assert!(validate_confirmation(
        Some(EEPROM_WRITE_CONFIRMATION),
        EEPROM_WRITE_CONFIRMATION,
        "usb-eeprom-write"
    )
    .is_ok());
    assert!(validate_confirmation(
        Some("I_CONFIRM_WRITES"),
        EEPROM_WRITE_CONFIRMATION,
        "usb-eeprom-write"
    )
    .is_err());
    assert!(validate_eeprom_updates(spec, &[(spec.memory_low, 1)]).is_ok());
    assert!(validate_eeprom_updates(spec, &[]).is_err());
    assert!(validate_eeprom_updates(spec, &[(spec.memory_low, 1), (spec.memory_low, 2)]).is_err());
    assert!(validate_eeprom_updates(spec, &[(spec.memory_high.saturating_add(1), 1)]).is_err());
    assert!(validate_confirmation(
        Some(EEPROM_COUNTER_RESET_CONFIRMATION),
        EEPROM_COUNTER_RESET_CONFIRMATION,
        "usb-eeprom-reset"
    )
    .is_ok());
    assert!(validate_confirmation(
        Some("I_CONFIRM_THIS_WILL_RESET_COUNTERS"),
        EEPROM_COUNTER_RESET_CONFIRMATION,
        "usb-eeprom-reset"
    )
    .is_err());
}

#[test]
fn main_declared_counter_resets_select_only_the_requested_explicit_operations() {
    let c90 = &model("C90");
    assert_eq!(
        declared_counter_reset_updates(c90, CounterResetSelection::Waste).unwrap(),
        vec![
            (0x06, 0),
            (0x07, 0),
            (0x0a, 0),
            (0x0b, 0),
            (0x16, 0),
            (0x17, 0),
            (0x34, 4),
            (0x35, 0x57),
            (0x0c, 1),
            (0x0d, 0xf4),
        ]
    );
    assert!(declared_counter_reset_updates(c90, CounterResetSelection::PlatenPad).is_err());

    let xp = &model("XP-15000");
    assert_eq!(
        declared_counter_reset_updates(xp, CounterResetSelection::PlatenPad).unwrap(),
        vec![(0x40, 0), (0x43, 0), (0x44, 0), (0x48, 0x5e), (0x1ed, 0)]
    );
    assert!(declared_counter_reset_updates(xp, CounterResetSelection::Waste).is_err());
}

#[test]
fn tests_declared_counter_resets_select_only_the_requested_explicit_operations() {
    let c90 = &model("C90");
    assert_eq!(
        declared_counter_reset_updates(c90, CounterResetSelection::Waste).unwrap(),
        vec![
            (0x06, 0),
            (0x07, 0),
            (0x0a, 0),
            (0x0b, 0),
            (0x16, 0),
            (0x17, 0),
            (0x34, 4),
            (0x35, 0x57),
            (0x0c, 1),
            (0x0d, 0xf4),
        ]
    );
    assert!(declared_counter_reset_updates(c90, CounterResetSelection::PlatenPad).is_err());

    let xp = &model("XP-15000");
    assert_eq!(
        declared_counter_reset_updates(xp, CounterResetSelection::PlatenPad).unwrap(),
        vec![(0x40, 0), (0x43, 0), (0x44, 0), (0x48, 0x5e), (0x1ed, 0)]
    );
    assert!(declared_counter_reset_updates(xp, CounterResetSelection::Waste).is_err());
}

#[test]
fn main_refuses_existing_and_parentless_backup_paths() {
    let existing = "Cargo.toml";
    assert!(validate_new_file_path(existing, "EEPROM backup", true, None).is_err());
    assert!(validate_new_file_path(existing, "EEPROM reset backup", true, None).is_err());
    assert!(validate_new_file_path(
        "missing-parent-for-reink-cli-test\\backup.bin",
        "EEPROM backup",
        false,
        Some("missing-parent-for-reink-cli-test")
    )
    .is_err());
}

#[test]
fn tests_refuses_existing_and_parentless_backup_paths() {
    let existing = "Cargo.toml";
    assert!(validate_new_file_path(existing, "EEPROM backup", true, None).is_err());
    assert!(validate_new_file_path(existing, "EEPROM reset backup", true, None).is_err());
    assert!(validate_new_file_path(
        "missing-parent-for-reink-cli-test\\backup.bin",
        "EEPROM backup",
        false,
        Some("missing-parent-for-reink-cli-test")
    )
    .is_err());
}

#[test]
fn main_requires_complete_optional_usb_location() {
    assert!(usb_device_selector(0x04b8, 0x1234, Some(1), None).is_err());
    assert_eq!(
        usb_device_selector(0x04b8, 0x1234, Some(1), Some(2)).unwrap(),
        UsbDeviceSelector::at_location(0x04b8, 0x1234, 1, 2)
    );
}

#[test]
fn tests_requires_complete_optional_usb_location() {
    assert!(usb_device_selector(0x04b8, 0x1234, Some(1), None).is_err());
    assert_eq!(
        usb_device_selector(0x04b8, 0x1234, Some(1), Some(2)).unwrap(),
        UsbDeviceSelector::at_location(0x04b8, 0x1234, 1, 2)
    );
}

#[test]
fn numbers_are_limited_by_their_type() {
    assert_eq!(parse_u16("0xffff"), Ok(0xffff));
    assert_eq!(parse_u16("65535"), Ok(65535));
    assert!(parse_u16("65536").is_err());
    assert!(parse_u16("").is_err());
    assert!(parse_u16("-1").is_err());
    assert_eq!(parse_u8("255"), Ok(255));
    assert_eq!(parse_u8("0x1F"), Ok(0x1f));
    assert_eq!(
        parse_u8("0X1f").unwrap_err(),
        "expected a decimal or 0x-prefixed byte, got \"0X1f\""
    );
    assert_eq!(
        parse_u8("0xzz").unwrap_err(),
        "expected a decimal or 0x-prefixed byte, got \"zz\""
    );
    assert!(parse_u8("256").is_err());
    assert!(parse_eeprom_update("0x10000=1").is_err());
    assert!(parse_eeprom_update("=").is_err());
}

#[test]
fn read_addresses_name_their_problem() {
    let settings = model("C90");
    assert!(validate_eeprom_read_addresses(&settings, &[0x0c, 0x0d]).is_ok());
    let listed_twice = validate_eeprom_read_addresses(&settings, &[0x0c, 0x0c]).unwrap_err();
    assert!(listed_twice.contains("0x000c"), "{listed_twice}");
    let outside = validate_eeprom_read_addresses(&settings, &[0xffff]).unwrap_err();
    assert!(outside.contains("0xffff"), "{outside}");
}

#[test]
fn unknown_models_are_refused_by_name() {
    let database = builtin();
    assert_eq!(selected_model(&database, "C90").unwrap().model, "C90");
    assert_eq!(
        selected_model(&database, "C91").unwrap_err(),
        "unknown model: C91"
    );
}

#[test]
fn an_acknowledgement_is_taken_only_word_for_word() {
    assert!(validate_native_acknowledgement(Some(
        WINDOWS_NATIVE_EXPERIMENTAL_MUTATION_ACKNOWLEDGEMENT
    ))
    .is_ok());
    assert_eq!(
        validate_native_acknowledgement(None).unwrap_err(),
        "experimental Windows native USBPRINT mutation requires --native-experimental-acknowledgement I_ACKNOWLEDGE_WINDOWS_NATIVE_MUTATION_IS_EXPERIMENTAL exactly"
    );
    assert!(validate_native_acknowledgement(Some(EEPROM_WRITE_CONFIRMATION)).is_err());
    assert!(require_native_experimental_mutation_acknowledgement(true).is_ok());
    assert!(require_native_experimental_mutation_acknowledgement(false).is_err());
}

#[test]
fn sensitive_addresses_are_kept_from_reports() {
    let settings = model("L1300");
    let mut shown = Vec::new();
    let mut hidden = Vec::new();
    for address in settings.memory_low..=settings.memory_high {
        if is_sensitive_address(&settings, address) {
            hidden.push(address);
        } else {
            shown.push(address);
        }
    }
    let sensitive: Vec<u16> = settings
        .read_only_fields
        .iter()
        .filter(|field| field.sensitive)
        .flat_map(|field| field.address..=field.end_address)
        .collect();
    assert!(hidden.iter().all(|address| sensitive.contains(address)));
    assert!(shown.iter().all(|address| !sensitive.contains(address)));
    assert!(validate_native_sensitive_addresses(&settings, &shown).is_ok());
    if let Some(address) = hidden.first() {
        assert!(validate_native_sensitive_addresses(&settings, &[*address]).is_err());
    }
}

#[test]
fn new_files_take_only_free_paths() {
    assert_eq!(validate_new_file_path("new.bin", "EEPROM image", false, None), Ok(()));
    assert_eq!(
        validate_new_file_path("old.bin", "EEPROM image", true, None).unwrap_err(),
        "refusing to overwrite existing EEPROM image: old.bin"
    );
    assert_eq!(
        validate_new_file_path("a/new.bin", "EEPROM image", false, Some("a")).unwrap_err(),
        "EEPROM image parent directory does not exist: a"
    );
}

fn write_command(confirmation: Option<&str>) -> Command {
    Command::UsbEepromChange {
        selection: usb_device(),
        model: "C90".to_owned(),
        change: Change::Write { updates: vec![(0x0c, 0xff)] },
        backup_file: "new-backup.bin".to_owned(),
        confirmation: confirmation.map(str::to_owned),
    }
}

#[test]
fn a_usb_write_goes_through_its_gates_in_order() {
    let database = builtin();
    assert_eq!(
        next_step(Platform::Linux, &database, &write_command(None), &Facts::none(), false)
            .unwrap_err(),
        "usb-eeprom-write requires --confirmation I_CONFIRM_THIS_WILL_WRITE_EEPROM exactly"
    );
    assert!(next_step(
        Platform::Linux,
        &database,
        &write_command(Some(EEPROM_RESTORE_CONFIRMATION)),
        &free_path(),
        false
    )
    .is_err());
    let command = write_command(Some(EEPROM_WRITE_CONFIRMATION));
    assert_eq!(
        next_step(Platform::Linux, &database, &command, &Facts::none(), false).unwrap(),
        NextStep::InspectNewFile {
            path: "new-backup.bin".to_owned(),
            kind: "EEPROM backup",
        }
    );
    let taken = Facts {
        new_file: Some(NewFileFacts { exists: true, missing_parent: None }),
        image: None,
        candidate_found: false,
    };
    assert_eq!(
        next_step(Platform::Linux, &database, &command, &taken, false).unwrap_err(),
        "refusing to overwrite existing EEPROM backup: new-backup.bin"
    );
    match next_step(Platform::Linux, &database, &command, &free_path(), false).unwrap() {
        NextStep::UsbSession { device, interface, alternate_setting, settings, task } => {
            assert_eq!(device, UsbDeviceSelector::new(0x04b8, 1234));
            assert_eq!((interface, alternate_setting), (0, 0));
            assert_eq!(settings.model, "C90");
            assert_eq!(
                task,
                SessionTask::Change {
                    operation: "write",
                    updates: vec![(0x0c, 0xff)],
                    backup_file: "new-backup.bin".to_owned(),
                    backup_kind: "EEPROM backup",
                    preparing: "could not prepare EEPROM write: ".to_owned(),
                    failing: "EEPROM write failed: ".to_owned(),
                }
            );
        }
        other => panic!("unexpected step {other:?}"),
    }
}

#[test]
fn a_restore_takes_every_byte_of_an_image_of_the_models_size() {
    let database = builtin();
    let settings = model("C90");
    let command = Command::UsbEepromChange {
        selection: usb_device(),
        model: "C90".to_owned(),
        change: Change::Restore { input_file: "image.bin".to_owned() },
        backup_file: "rollback.bin".to_owned(),
        confirmation: Some(EEPROM_RESTORE_CONFIRMATION.to_owned()),
    };
    let mut facts = free_path();
    assert_eq!(
        next_step(Platform::Linux, &database, &command, &facts, false).unwrap(),
        NextStep::ReadImage { path: "image.bin".to_owned() }
    );
    facts.image = Some(Err("no such file".to_owned()));
    assert_eq!(
        next_step(Platform::Linux, &database, &command, &facts, false).unwrap_err(),
        "could not read EEPROM restore image image.bin: no such file"
    );
    facts.image = Some(Ok(vec![1, 2, 3]));
    assert!(next_step(Platform::Linux, &database, &command, &facts, false).is_err());
    let length = usize::from(settings.memory_high - settings.memory_low) + 1;
    facts.image = Some(Ok(vec![7; length]));
    match next_step(Platform::Linux, &database, &command, &facts, false).unwrap() {
        NextStep::UsbSession { task: SessionTask::Change { updates, backup_kind, .. }, .. } => {
            assert_eq!(updates.len(), length);
            assert_eq!(updates[0], (settings.memory_low, 7));
            assert_eq!(updates[length - 1], (settings.memory_high, 7));
            assert_eq!(backup_kind, "EEPROM rollback backup");
        }
        other => panic!("unexpected step {other:?}"),
    }
}

#[test]
fn a_reset_takes_only_what_the_model_declares() {
    let database = builtin();
    let reset = |selection| Command::UsbEepromChange {
        selection: usb_device(),
        model: "XP-15000".to_owned(),
        change: Change::Reset { selection },
        backup_file: "reset.bin".to_owned(),
        confirmation: Some(EEPROM_COUNTER_RESET_CONFIRMATION.to_owned()),
    };
    assert!(
        next_step(
            Platform::Linux,
            &database,
            &reset(CounterResetSelection::Waste),
            &free_path(),
            false
        )
        .is_err()
    );
    match next_step(
        Platform::Linux,
        &database,
        &reset(CounterResetSelection::PlatenPad),
        &free_path(),
        false,
    )
    .unwrap()
    {
        NextStep::UsbSession { task: SessionTask::Change { operation, updates, .. }, .. } => {
            assert_eq!(operation, "declared counter reset");
            assert_eq!(
                updates,
                vec![(0x40, 0), (0x43, 0), (0x44, 0), (0x48, 0x5e), (0x1ed, 0)]
            );
        }
        other => panic!("unexpected step {other:?}"),
    }
}

#[test]
fn a_change_through_the_stock_driver_needs_both_sentences() {
    let database = builtin();
    let write = |confirmation: Option<&str>, acknowledgement: Option<&str>| {
        Command::WindowsNativeEepromChange {
            selection: native_device(),
            model: "C90".to_owned(),
            change: Change::Write { updates: vec![(0x0c, 1)] },
            backup_file: "new.bin".to_owned(),
            confirmation: confirmation.map(str::to_owned),
            acknowledgement: acknowledgement.map(str::to_owned),
        }
    };
    let acknowledged = Some(WINDOWS_NATIVE_EXPERIMENTAL_MUTATION_ACKNOWLEDGEMENT);
    assert_eq!(
        next_step(Platform::Windows, &database, &write(None, acknowledged), &free_path(), false)
            .unwrap_err(),
        "windows-native-experimental-eeprom-write requires --confirmation I_CONFIRM_THIS_WILL_WRITE_EEPROM exactly"
    );
    assert!(next_step(
        Platform::Windows,
        &database,
        &write(Some(EEPROM_WRITE_CONFIRMATION), None),
        &free_path(),
        false
    )
    .is_err());
    let command = write(Some(EEPROM_WRITE_CONFIRMATION), acknowledged);
    let mut facts = free_path();
    assert_eq!(
        next_step(Platform::Windows, &database, &command, &facts, false).unwrap(),
        NextStep::FindNativeCandidate { selection: native_device() }
    );
    facts.candidate_found = true;
    match next_step(Platform::Windows, &database, &command, &facts, false).unwrap() {
        NextStep::NativeSession { selection, task: SessionTask::Change { failing, .. }, .. } => {
            assert_eq!(selection, native_device());
            assert_eq!(failing, "experimental Windows native USBPRINT EEPROM write failed: ");
        }
        other => panic!("unexpected step {other:?}"),
    }
}

#[test]
fn reading_commands_open_only_reading_sessions() {
    let database = builtin();
    assert_eq!(
        next_step(
            Platform::Linux,
            &database,
            &Command::SnmpEepromRead { model: "C90".to_owned(), addresses: vec![] },
            &Facts::none(),
            false
        )
        .is_err(),
        true
    );
    match next_step(
        Platform::Linux,
        &database,
        &Command::UsbStatus { selection: usb_device(), model: "C90".to_owned() },
        &Facts::none(),
        false,
    )
    .unwrap()
    {
        NextStep::UsbSession { task, .. } => assert_eq!(task, SessionTask::Status),
        other => panic!("unexpected step {other:?}"),
    }
    let dump = Command::UsbEepromDump {
        selection: usb_device(),
        model: "C90".to_owned(),
        output_file: "image.bin".to_owned(),
    };
    assert_eq!(
        next_step(Platform::Linux, &database, &dump, &Facts::none(), false).unwrap(),
        NextStep::InspectNewFile { path: "image.bin".to_owned(), kind: "EEPROM image" }
    );
    let misplaced = UsbSelection { bus_number: Some(1), ..usb_device() };
    assert_eq!(
        next_step(
            Platform::Linux,
            &database,
            &Command::UsbId { selection: misplaced },
            &Facts::none(),
            false
        )
        .unwrap_err(),
        "--bus-number and --device-address must be provided together"
    );
}

#[test]
fn listing_commands_print_at_once() {
    let database = builtin();
    match next_step(Platform::Linux, &database, &Command::Models, &Facts::none(), false).unwrap() {
        NextStep::Print(text) => {
            assert!(text.lines().any(|line| line == "C90"));
            let mut sorted: Vec<&str> = text.lines().collect();
            sorted.sort_unstable();
            assert_eq!(sorted, text.lines().collect::<Vec<_>>());
        }
        other => panic!("unexpected step {other:?}"),
    }
    let parsed = Command::ParseId { identifier: "MFG:EPSON;MDL:C90;".to_owned() };
    assert_eq!(
        next_step(Platform::Linux, &database, &parsed, &Facts::none(), false).unwrap(),
        NextStep::Print(
            "MDL: C90\nMFG: EPSON\ndetected-model: C90\nresolved-model: C90".to_owned()
        )
    );
    let malformed = Command::ParseId { identifier: "MFG".to_owned() };
    assert!(next_step(Platform::Linux, &database, &malformed, &Facts::none(), false).is_err());
    let unknown = Command::Model { name: "C91".to_owned() };
    assert_eq!(
        next_step(Platform::Linux, &database, &unknown, &Facts::none(), true).unwrap_err(),
        "unknown model: C91"
    );
}

#[test]
fn a_model_is_reported_without_its_keys() {
    let settings = model("C90");
    let text = render_model(&settings, false);
    assert!(text.starts_with("model: C90\n"), "{text}");
    let json = render_model(&settings, true);
    assert!(json.starts_with('{') && json.ends_with('}'), "{json}");
    for report in [text, json] {
        assert!(!report.contains("STAND-IN"), "{report}");
        assert!(!report.contains("write_key"), "{report}");
    }
}

#[test]
fn reports_as_json_escape_what_they_quote() {
    assert_eq!(
        render_models(&["a\"b\\c\n".to_owned()], true),
        r#"{"models":["a\"b\\c\n"]}"#
    );
    assert_eq!(
        render_printer_status("C90", &[0xff], true),
        r#"{"mode":"read_only","model":"C90","status_hex":"FF","status_text":null}"#
    );
    assert_eq!(
        render_printer_status("C90", &[0xff], false),
        "model: C90\nstatus: unavailable (non-UTF-8 response)\nstatus-hex: FF"
    );
    assert_eq!(
        render_eeprom_readings("C90", &[EepromReadReply { address: 0x0c, value: 0x42 }], true),
        r#"{"eeprom":[{"address":"000C","value":"42"}],"mode":"read_only","model":"C90"}"#
    );
}

#[test]
fn discovered_printers_are_listed_with_their_place() {
    let devices = [
        DiscoveredDevice {
            display_name: "Printer".to_owned(),
            location: DeviceLocation::Network { address: "192.0.2.10:631".to_owned() },
        },
        DiscoveredDevice {
            display_name: "/dev/usb/lp0".to_owned(),
            location: DeviceLocation::DeviceFile("/dev/usb/lp0".to_owned()),
        },
    ];
    let text = render_discovery(&devices, false);
    assert_eq!(text.lines().count(), 2);
    assert!(text.contains("192.0.2.10:631"), "{text}");
    let json = render_discovery(&devices, true);
    assert!(json.contains("192.0.2.10:631"), "{json}");
    assert!(json.contains("/dev/usb/lp0"), "{json}");
}

#[test]
fn device_identifiers_have_to_be_ascii() {
    assert_eq!(
        parse_device_id(b"MFG:EPSON;MDL:C90;").unwrap(),
        PrinterIdentity::parse("MFG:EPSON;MDL:C90;").ok().unwrap()
    );
    assert!(parse_device_id(&[0xff, 0xfe]).is_err());
    assert!(parse_device_id(b"MFG").is_err());
}

#[test]
fn changes_are_reported_with_their_backup() {
    let text = eeprom_mutation_output("write", "C90", 2, "backup_file", "backup.bin", false);
    assert!(text.contains("C90") && text.contains("backup.bin"), "{text}");
    let json = eeprom_mutation_output("write", "C90", 2, "backup_file", "backup.bin", true);
    assert!(json.contains(r#""backup_file":"backup.bin""#), "{json}");
    let reset = counter_reset_output("C90", CounterResetSelection::Waste, 2, "backup.bin", true);
    assert!(reset.contains(r#""backup_file":"backup.bin""#), "{reset}");
    assert_eq!(
        render_eeprom_dump("C90", 0x10, 3, "image.bin", true),
        r#"{"byte_count":3,"end_address":"0012","mode":"read_only","model":"C90","output_file":"image.bin","start_address":"0010"}"#
    );
    assert_ne!(
        render_probe(EpsonD4EntryProbeResult::Recognized, false),
        render_probe(EpsonD4EntryProbeResult::Unrecognized { received_bytes: 3 }, false)
    );
}

#[test]
fn a_finished_operation_names_every_failure() {
    assert_eq!(finish_usb_operation::<u8>(Ok(3), None, None, "close failed: "), Ok(3));
    assert_eq!(
        finish_usb_operation::<u8>(
            Err("read failed".to_owned()),
            Some("no exit".to_owned()),
            Some("stuck".to_owned()),
            "close failed: "
        )
        .unwrap_err(),
        "read failed; D4 shutdown failed: no exit; close failed: stuck"
    );
    let failed = setup_failure(&ApplicationError::EntryReplyMissing, Some("stuck".to_owned()));
    assert!(failed.starts_with("D4 session setup failed: "), "{failed}");
    assert!(failed.ends_with("; USB transport close failed: stuck"), "{failed}");
}

#[test]
fn a_finished_stock_driver_operation_names_its_transport() {
    let outcome = SelectedUsbSessionOutcome {
        operation: Ok::<u8, String>(1),
        cleanup: UsbSessionCleanup {
            d4_shutdown: UsbCleanupStatus::Succeeded,
            usb_close: UsbCleanupStatus::Failed("stuck".to_owned()),
        },
        events: vec![],
    };
    assert_eq!(
        finish_windows_native_operation(outcome).unwrap_err(),
        "Windows stock-driver transport close failed: stuck"
    );
}

#[test]
fn stock_driver_candidates_are_listed_by_alias() {
    let database = builtin();
    let candidate = NativeCandidate {
        vendor_id: 0x04b8,
        product_id: 0xffff,
        interface_number: Some(0),
        capabilities: NativeCapabilities {
            d4_read: true,
            usb_device_id: true,
            persistent_mutation: false,
            experimental_mutation: true,
        },
    };
    let text = windows_native_candidates_output(&database, &[candidate, candidate], false);
    assert_eq!(text.lines().count(), 2, "{text}");
    let json = windows_native_candidates_output(&database, &[candidate], true);
    assert!(json.contains("04B8") || json.contains("04b8"), "{json}");
}

#[test]
fn stock_driver_reports_carry_no_serial_number() {
    let identity = PrinterIdentity::parse("MFG:EPSON;MDL:C90;SN:PRIVATE;").ok().unwrap();
    for as_json in [false, true] {
        let report = windows_native_identity_output(&identity, as_json);
        assert!(report.contains("C90"), "{report}");
        assert!(!report.contains("PRIVATE"), "{report}");
    }
    let image = EepromImage {
        model: "C90".to_owned(),
        start_address: 0,
        bytes: vec![0; 4],
    };
    assert_eq!(
        windows_native_eeprom_dump_output(&image, "image.bin", false),
        "Saved 4-byte read-only Windows stock-driver EEPROM image for C90 to image.bin"
    );
    assert!(windows_native_experimental_mutation_output("write", "C90", 1, "b.bin", true)
        .contains(r#""experimental_unvalidated":true"#));
}

#[test]
fn covered_serials_stay_covered() {
    let bytes = b"MFG:EPSON;SN:A1B2;MDL:C90;";
    let covered = redact_identity_serials(bytes);
    assert_eq!(covered, b"MFG:EPSON;SN:XXXX;MDL:C90;".to_vec());
    assert_eq!(redact_identity_serials(&covered), covered);
}

#[test]
fn offline_input_is_limited_in_size() {
    assert_eq!(refuse_offline_input("a.bin", true, MAX_OFFLINE_BINARY_BYTES), None);
    assert!(refuse_offline_input("a.bin", true, MAX_OFFLINE_BINARY_BYTES + 1).is_some());
    assert!(refuse_offline_input("a", false, 1).is_some());
    assert!(ascii_wanted(true, None));
    assert!(ascii_wanted(false, Some("bin")));
    assert!(ascii_wanted(false, None));
    assert!(!ascii_wanted(false, Some("PcapNG")));
}

#[test]
fn findings_are_listed_by_offset() {
    let findings = analyze_binary_bytes(b"\0ABCDEFGH\0", true);
    let text = render_binary_findings("a.bin", &findings, false);
    assert!(text.contains("ABCDEFGH"), "{text}");
    let json = render_binary_findings("a.bin", &findings, true);
    assert!(json.contains(r#""value":"ABCDEFGH""#), "{json}");
}

#[test]
fn a_change_is_reported_by_its_kind() {
    let write = Change::Write { updates: vec![(0x0c, 1)] };
    assert_eq!(
        usb_change_output(&write, "C90", 1, "backup.bin", false),
        "EEPROM write completed for C90: 1 byte(s); backup_file: backup.bin"
    );
    let restore = Change::Restore { input_file: "image.bin".to_owned() };
    assert_eq!(
        usb_change_output(&restore, "C90", 2, "rollback.bin", false),
        "EEPROM restore completed for C90: 2 byte(s); rollback_backup_file: rollback.bin"
    );
    let reset = Change::Reset { selection: CounterResetSelection::Waste };
    assert_eq!(
        usb_change_output(&reset, "C90", 3, "reset.bin", false),
        "Declared waste counter reset completed for C90: 3 byte(s); backup_file: reset.bin"
    );
}

#[test]
fn commands_are_refused_on_platforms_without_them() {
    let database = ModelDatabase::builtin().unwrap();
    let message = |platform: Platform, command: &Command| {
        next_step(platform, &database, command, &Facts::none(), false).unwrap_err()
    };
    let change = |change: Change| Command::UsbEepromChange {
        selection: usb_device(),
        model: "C90".to_owned(),
        change,
        backup_file: "new-backup.bin".to_owned(),
        confirmation: None,
    };
    let write = change(Change::Write { updates: vec![(0x10, 1)] });
    let restore = change(Change::Restore { input_file: "image.bin".to_owned() });
    let reset = change(Change::Reset { selection: CounterResetSelection::Waste });
    for platform in [Platform::Windows, Platform::Other] {
        assert_eq!(
            message(platform, &write),
            "USB EEPROM writes are currently supported only on Linux or macOS"
        );
        assert_eq!(
            message(platform, &restore),
            "USB EEPROM restores are currently supported only on Linux or macOS"
        );
        assert_eq!(
            message(platform, &reset),
            "USB EEPROM resets are currently supported only on Linux or macOS"
        );
    }
    for platform in [Platform::Linux, Platform::MacOs] {
        assert!(message(platform, &write).starts_with("usb-eeprom-write requires"));
    }
    let model = "C90".to_owned();
    let selection = usb_device();
    assert_eq!(
        message(Platform::Other, &Command::UsbId { selection }),
        "USB identity inspection is currently supported only on Linux, macOS, or Windows"
    );
    assert_eq!(
        message(Platform::Other, &Command::UsbD4Probe { selection }),
        "USB D4 probing is currently supported only on Linux, macOS, or Windows"
    );
    assert_eq!(
        message(Platform::Other, &Command::UsbStatus { selection, model: model.clone() }),
        "USB printer status is currently supported only on Linux, macOS, or Windows"
    );
    assert_eq!(
        message(
            Platform::Other,
            &Command::UsbEepromDump { selection, model, output_file: "image.bin".to_owned() }
        ),
        "USB EEPROM dumps are currently supported only on Linux, macOS, or Windows"
    );
    assert!(next_step(
        Platform::Windows,
        &database,
        &Command::UsbId { selection },
        &Facts::none(),
        false
    )
    .is_ok());
    for platform in [Platform::MacOs, Platform::Windows, Platform::Other] {
        assert_eq!(
            message(platform, &Command::LocalDevices),
            "Linux device-file discovery is unavailable on this platform"
        );
    }
    assert_eq!(
        next_step(Platform::Linux, &database, &Command::LocalDevices, &Facts::none(), false),
        Ok(NextStep::ListLocalDevices)
    );
}
