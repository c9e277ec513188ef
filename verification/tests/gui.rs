//! The graphical interface: its state, its pages and its dialogs, and the record
//! of the traffic with a printer.
use reink::arguments::{
    require_native_experimental_mutation_acknowledgement, EEPROM_RESTORE_CONFIRMATION,
    EEPROM_WRITE_CONFIRMATION, WINDOWS_NATIVE_EXPERIMENTAL_MUTATION_ACKNOWLEDGEMENT,
};
use reink::database::{ModelDatabase, RawDatabase, RawSpec};
use reink::dialog::read_update;
use reink::epson::{CounterResetTarget, EepromFieldConfidence, EepromFieldEncoding};
use reink::fields::format_hex_bytes;
use reink::filter::{filter_names, is_broken_filter, shows_name};
use reink::gui::{
    fixture_devices, model_hints_for_usb_candidate, source_mode_from_args, DescriptorCandidate,
    DescriptorCandidateBackend, GuiState, Page, SourceMode, ValidationStatus,
};
use reink::items::{Action, Entry, Item, Tone};
use reink::native::redact_native_identity_serials;
use reink::packet::Packet;
use reink::pages::status_color;
use reink::platform::{Platform, TransportEvent};
use reink::reassembly::DebugTrafficDirection;
use reink::screen::{
    selected_model_for_usb_candidate, PendingUsbOperation, ReinkGui, RestoreImagePreflight,
    UsbPrinterCandidate, UsbScanStatus,
};
use reink::selected::{UsbOperationRequest, UsbOperationSuccess};
use reink::session::{
    epson_d4_entry_command, epson_d4_entry_reply, SelectedUsbSessionOutcome, UsbCleanupStatus,
    UsbSessionCleanup,
};
use reink::traffic::{DebugTrafficTrace, DEBUG_TRAFFIC_MAX_ENTRIES};
use reink::transaction::{ProtocolRevision, TransactionMessage};
use reink::view::{
    ascii_dump_line, cleanup_report_lines, confirmation_matches, display_status_response,
    eeprom_field_address_label, eeprom_field_tooltip, eeprom_field_value, eeprom_image_offset,
    end_truncate, expected_restore_image_length, format_current_values, parse_u16_input,
    parse_u8_input, preflight_open_failure, preflight_opened, preflight_read, preflight_stat,
    validate_restore_image_size, EepromFileField, FileFacts, ValidatedRestoreImage,
};

/// A packet on the control channel.
fn control_packet(payload: &[u8], credit: u8, control: u8) -> Vec<u8> {
    Packet::new(2, 2, payload.to_vec(), credit, control)
        .unwrap()
        .encode()
}

/// A packet on the transaction channel.
fn transaction_packet(message: TransactionMessage, revision: ProtocolRevision) -> Vec<u8> {
    Packet::new(0, 0, message.encode(revision).unwrap(), 1, 0)
        .unwrap()
        .encode()
}

/// A trace that captures.
fn capturing() -> DebugTrafficTrace {
    let mut trace = DebugTrafficTrace::new();
    trace.set_capture_enabled(true);
    trace
}

/// The summary of the newest transfer.
fn last_summary(trace: &DebugTrafficTrace) -> String {
    trace.entries().last().unwrap().summary().to_owned()
}

#[test]
fn debug_trace_formats_tx_rx_and_preserves_read_fragments_in_order() {
    let mut trace = capturing();

    assert_eq!(
        trace.append_events(vec![
            TransportEvent::Tx(vec![0x1b, 0x40]),
            TransportEvent::Rx(vec![0x06]),
            TransportEvent::Rx(vec![]),
        ]),
        3
    );

    let entries = trace.entries();
    assert_eq!(entries[0].direction(), DebugTrafficDirection::Tx);
    assert_eq!(entries[0].hex_bytes(), "1B 40");
    assert_eq!(entries[1].direction(), DebugTrafficDirection::Rx);
    assert_eq!(entries[1].hex_bytes(), "06");
    assert_eq!(entries[2].direction(), DebugTrafficDirection::Rx);
    assert_eq!(entries[2].hex_bytes(), "");
    assert_eq!(
        entries[2].summary(),
        "RX usb_bulk_in=empty observation=timeout_like"
    );
    assert_eq!(
        entries[2].clipboard_text(),
        "RX usb_bulk_in=empty observation=timeout_like\nbytes=<empty>"
    );
    assert_eq!(
        trace.clipboard_text(),
        "TX transfer=raw framing=unrecognized bytes=2\nbytes=1B 40\nRX transfer=raw framing=unrecognized bytes=1\nbytes=06\nRX usb_bulk_in=empty observation=timeout_like\nbytes=<empty>"
    );
    assert!(entries[0].id() < entries[1].id());
}

#[test]
fn debug_trace_reassembles_a_fragmented_epson_d4_entry_reply() {
    let mut trace = capturing();

    trace.append(&TransportEvent::Rx(epson_d4_entry_reply()[..4].to_vec()));
    assert_eq!(trace.count(), 0);
    trace.append(&TransportEvent::Rx(epson_d4_entry_reply()[4..].to_vec()));

    let entry = trace.entries()[0];
    assert_eq!(entry.direction(), DebugTrafficDirection::Rx);
    assert_eq!(entry.hex_bytes(), "00 00 00 08 01 00 C5 00");
    assert_eq!(
        entry.summary(),
        "RX epson_d4_entry=reply result=recognized bytes=8"
    );
}

#[test]
fn debug_trace_reassembles_fragmented_and_multiple_d4_packets() {
    let mut trace = capturing();
    trace.append(&TransportEvent::Tx(epson_d4_entry_command()));

    let first = control_packet(b"di\x01\x00\x01", 1, 0);
    let second = control_packet(b"st\x01\x00\x01", 3, 1);
    trace.append(&TransportEvent::Tx(first[..4].to_vec()));
    assert_eq!(trace.count(), 1);
    let mut tail = first[4..].to_vec();
    tail.extend(&second);
    trace.append(&TransportEvent::Tx(tail));

    let entries = trace.entries();
    assert_eq!(entries.len(), 3);
    assert_eq!(entries[1].hex_bytes(), format_hex_bytes(&first));
    assert!(entries[1].summary().contains("command=di"));
    assert!(entries[1].summary().contains("payload_length=1"));
    assert!(entries[2].summary().contains("command=st"));
    assert!(entries[2].summary().contains("credit=3"));
    assert!(entries[2].summary().contains("control_bits=0b01"));
}

#[test]
fn debug_trace_tracks_v20_and_v10_transaction_layouts() {
    let mut trace = capturing();
    trace.append(&TransportEvent::Tx(epson_d4_entry_command()));

    let init_v20 = Packet::new(
        0,
        0,
        TransactionMessage::Init {
            revision: ProtocolRevision::V20,
        }
        .encode(ProtocolRevision::V20)
        .unwrap(),
        1,
        0,
    )
    .unwrap()
    .encode();
    let open_v20 = Packet::new(
        0,
        0,
        TransactionMessage::OpenChannel {
            peer_socket: 2,
            source_socket: 3,
            max_packet_size: 0x100,
            max_service_size: 0x200,
            max_credit: 4,
            initial_credit: None,
        }
        .encode(ProtocolRevision::V20)
        .unwrap(),
        1,
        0,
    )
    .unwrap()
    .encode();
    let init_v10 = Packet::new(
        0,
        0,
        TransactionMessage::Init {
            revision: ProtocolRevision::V10,
        }
        .encode(ProtocolRevision::V10)
        .unwrap(),
        1,
        0,
    )
    .unwrap()
    .encode();
    let open_v10 = Packet::new(
        0,
        0,
        TransactionMessage::OpenChannel {
            peer_socket: 4,
            source_socket: 5,
            max_packet_size: 0x40,
            max_service_size: 0x80,
            max_credit: 6,
            initial_credit: Some(7),
        }
        .encode(ProtocolRevision::V10)
        .unwrap(),
        1,
        0,
    )
    .unwrap()
    .encode();
    let mut transfer = init_v20;
    transfer.extend(open_v20);
    transfer.extend(init_v10);
    transfer.extend(open_v10);
    trace.append(&TransportEvent::Tx(transfer));

    let summaries = trace
        .entries()
        .into_iter()
        .map(|entry| entry.summary().to_owned())
        .collect::<Vec<_>>();
    assert_eq!(summaries.len(), 5);
    assert!(summaries[1].contains("transaction=init"));
    assert!(summaries[1].contains("requested_revision=V20"));
    assert!(summaries[2].contains("revision=V20"));
    assert!(summaries[2].contains("max_packet_size=256"));
    assert!(summaries[3].contains("requested_revision=V10"));
    assert!(summaries[4].contains("revision=V10"));
    assert!(summaries[4].contains("initial_credit=7"));
}

#[test]
fn debug_trace_decodes_l1300_factory_read_and_ascii_eeprom_reply() {
    let mut trace = capturing();
    trace.append(&TransportEvent::Tx(epson_d4_entry_command()));
    let read = control_packet(b"||\x07\x002\x08A\xbe\xa0\x26\x00", 1, 0);
    trace.append(&TransportEvent::Tx(read));

    let read_summary = last_summary(&trace);
    assert!(read_summary.contains("command=||"));
    assert!(read_summary.contains("factory_key=0x0832"));
    assert!(read_summary.contains("operation=A"));
    assert!(read_summary.contains("operation_complement=0xBE"));
    assert!(read_summary.contains("check=0xA0"));
    assert!(read_summary.contains("address_bytes=26 00"));
    assert!(read_summary.contains("address=0x0026"));

    let mut reply_trace = capturing();
    reply_trace.append(&TransportEvent::Rx(epson_d4_entry_reply()));
    let reply = control_packet(b"@BDC PS EE:002600;", 1, 0);
    reply_trace.append(&TransportEvent::Rx(reply));

    let reply_summary = last_summary(&reply_trace);
    assert!(reply_summary.contains("request_response=response"));
    assert!(reply_summary.contains("response=ascii"));
    assert!(reply_summary.contains("eeprom_address=0x0026"));
    assert!(reply_summary.contains("eeprom_value=0x00"));
}

#[test]
fn debug_trace_reports_factory_write_key_length_without_decoding_the_key() {
    let mut trace = capturing();
    trace.append(&TransportEvent::Tx(epson_d4_entry_command()));
    let payload = b"||\x11\x002\x08B\xbd!\x26\x00\xAASENSITIVE";
    let packet = control_packet(payload, 1, 0);
    trace.append(&TransportEvent::Tx(packet));

    let summary = last_summary(&trace);
    assert!(summary.contains("operation=B"));
    assert!(summary.contains("address_bytes=26 00"));
    assert!(summary.contains("value=0xAA"));
    assert!(summary.contains("write_key_length=9"));
    assert!(!summary.contains("SENSITIVE"));
}

#[test]
fn debug_trace_keeps_malformed_and_unknown_transfers_as_raw() {
    let mut trace = capturing();
    trace.append(&TransportEvent::Tx(epson_d4_entry_command()));

    trace.append(&TransportEvent::Tx(vec![0, 0, 0, 5, 0, 0]));
    let unknown = control_packet(&[0xff], 1, 0);
    trace.append(&TransportEvent::Tx(unknown));

    let entries = trace.entries();
    assert_eq!(entries[1].hex_bytes(), "00 00 00 05 00 00");
    assert!(entries[1].summary().contains("transfer=raw"));
    assert!(entries[1].summary().contains("framing=unrecognized"));
    assert!(entries[2].summary().contains("payload=raw"));
}

#[test]
fn empty_read_does_not_break_pending_packet_reassembly() {
    let mut trace = capturing();
    trace.append(&TransportEvent::Rx(epson_d4_entry_reply()));
    let packet = control_packet(b"st\x01\x00\x01", 1, 0);

    trace.append(&TransportEvent::Rx(packet[..3].to_vec()));
    trace.append(&TransportEvent::Rx(Vec::new()));
    trace.append(&TransportEvent::Rx(packet[3..].to_vec()));

    let entries = trace.entries();
    assert_eq!(entries.len(), 3);
    assert_eq!(
        entries[1].summary(),
        "RX usb_bulk_in=empty observation=timeout_like"
    );
    assert_eq!(entries[2].hex_bytes(), format_hex_bytes(&packet));
}

#[test]
fn debug_trace_accepts_events_only_after_opt_in() {
    let mut trace = DebugTrafficTrace::new();
    let event = TransportEvent::Tx(vec![0xaa]);

    assert!(!trace.append(&event));
    assert_eq!(trace.count(), 0);

    trace.set_capture_enabled(true);
    assert!(trace.append(&event));
    assert_eq!(trace.count(), 1);
}

#[test]
fn sampled_operation_capture_survives_a_later_checkbox_toggle() {
    let mut trace = capturing();
    trace.set_capture_enabled(false);

    assert_eq!(
        trace.append_captured_events(vec![TransportEvent::Tx(vec![0xaa])]),
        1
    );
    assert_eq!(trace.count(), 1);
}

#[test]
fn debug_trace_begins_each_operation_with_fresh_decoder_state() {
    let mut trace = capturing();
    trace.append(&TransportEvent::Tx(epson_d4_entry_command()));
    trace.append(&TransportEvent::Rx(epson_d4_entry_reply()[..4].to_vec()));
    trace.transaction_revision = ProtocolRevision::V10;

    trace.begin_operation();

    assert_eq!(trace.count(), 1);
    assert!(trace.tx_decoder.bytes.is_empty());
    assert!(!trace.tx_decoder.d4_active);
    assert!(trace.rx_decoder.bytes.is_empty());
    assert!(!trace.rx_decoder.d4_active);
    assert_eq!(trace.transaction_revision, ProtocolRevision::V20);

    trace.append(&TransportEvent::Tx(epson_d4_entry_command()));

    let entries = trace.entries();
    assert_eq!(entries.len(), 2);
    assert_eq!(
        entries[0].summary(),
        format!(
            "TX epson_d4_entry=command bytes={}",
            epson_d4_entry_command().len()
        )
    );
    assert_eq!(
        entries[1].summary(),
        format!(
            "TX epson_d4_entry=command bytes={}",
            epson_d4_entry_command().len()
        )
    );
}

#[test]
fn debug_trace_clear_discards_partial_packets() {
    let mut trace = capturing();
    trace.append(&TransportEvent::Tx(epson_d4_entry_command()));
    let packet = control_packet(b"st\x07\x00PRIVATE", 1, 0);
    trace.append(&TransportEvent::Tx(packet[..12].to_vec()));

    trace.clear();
    trace.append(&TransportEvent::Tx(packet[12..].to_vec()));

    let entries = trace.entries();
    assert_eq!(entries.len(), 1);
    assert_eq!(entries[0].hex_bytes(), format_hex_bytes(&packet[12..]));
    assert!(entries[0].summary().contains("transfer=raw"));
    assert_ne!(entries[0].hex_bytes(), format_hex_bytes(&packet));
    assert!(
        !entries[0]
            .hex_bytes()
            .contains(&format_hex_bytes(&packet[..12]))
    );
}

#[test]
fn debug_trace_evicts_the_oldest_entry_at_its_fixed_bound() {
    let mut trace = capturing();
    for value in 0..=DEBUG_TRAFFIC_MAX_ENTRIES {
        trace.append(&TransportEvent::Tx(vec![(value % 256) as u8]));
    }

    assert_eq!(trace.count(), DEBUG_TRAFFIC_MAX_ENTRIES);
    assert_eq!(trace.entries()[0].hex_bytes(), "01");
    assert_eq!(trace.entries().last().unwrap().hex_bytes(), "E8");
}

#[test]
fn fixture_selection_changes_the_resolved_model() {
    let mut state = GuiState::new().unwrap();
    assert_eq!(
        state.identity_resolution().resolved_model.as_deref(),
        Some("XP-352")
    );

    state.select_fixture(1);

    assert_eq!(state.selected_fixture_index(), 1);
    assert_eq!(
        state.identity_resolution().resolved_model.as_deref(),
        Some("C90")
    );
}

#[test]
fn real_mode_is_the_default_and_does_not_enable_fixture_selection() {
    assert_eq!(SourceMode::default(), SourceMode::Real);
    assert!(!SourceMode::Real.fixtures_enabled());
    assert!(SourceMode::Fixtures.fixtures_enabled());
}

#[test]
fn invalid_fixture_selection_preserves_the_current_fixture() {
    let mut state = GuiState::new().unwrap();
    state.select_fixture(fixture_devices().len());

    assert_eq!(state.selected_fixture_index(), 0);
}

#[test]
fn navigation_reaches_each_fixture_only_view() {
    let mut state = GuiState::new().unwrap();
    assert_eq!(state.page(), Page::Status);

    state.navigate_to(Page::Eeprom);
    assert_eq!(state.page(), Page::Eeprom);
    state.navigate_to(Page::Tools);
    assert_eq!(state.page(), Page::Tools);
    state.navigate_to(Page::Status);
    assert_eq!(state.page(), Page::Status);
}

#[test]
fn eeprom_selection_is_bounded_and_resets_with_fixture_changes() {
    let mut state = GuiState::new().unwrap();
    state.select_eeprom_row(2);

    assert_eq!(state.selected_eeprom_row().address, 0x000c);

    state.select_eeprom_row(3);
    assert_eq!(state.selected_eeprom_row_index(), 2);

    state.select_fixture(1);
    assert_eq!(state.selected_eeprom_row_index(), 0);
    assert_eq!(state.selected_eeprom_row().address, 0x0006);
}

#[test]
fn fixture_eeprom_dump_contains_each_displayed_field_value() {
    for fixture in fixture_devices() {
        assert_eq!(fixture.eeprom_bytes.len(), 256);
        for row in &fixture.eeprom_rows {
            assert_eq!(fixture.eeprom_bytes[row.address as usize], row.value);
        }
    }
}

#[test]
fn bundled_models_are_available_for_eeprom_file_interpretation() {
    let state = GuiState::new().unwrap();

    assert!(state.model_names().iter().any(|model| model == "L1800"));
    assert!(
        state
            .model_spec("L1800")
            .is_some_and(|spec| !spec.memory_operations.is_empty())
    );
}

#[test]
fn usb_model_hints_require_an_exact_vendor_and_product_match() {
    let group = |model: &str, product_id: u16| RawSpec {
        brand: None,
        vendor_id: Some(0x04b8),
        product_id: Some(product_id),
        rkey: 0,
        write_key: None,
        shifted_write_key: None,
        read_length: 2,
        write_length: 2,
        memory_low: 0,
        memory_high: 0xff,
        mem: vec![],
        read_only_fields: vec![],
        models: vec![model.to_owned()],
    };
    let database = ModelDatabase::from_raw(&RawDatabase {
        epson: vec![group("Exact", 0x1234), group("Other product", 0x5678)],
    })
    .unwrap();

    assert_eq!(
        model_hints_for_usb_candidate(&database, 0x04b8, 0x1234),
        ["Exact"]
    );
    assert_eq!(
        model_hints_for_usb_candidate(&database, 0x04b8, 0x5678),
        ["Other product"]
    );
    assert!(model_hints_for_usb_candidate(&database, 0x1234, 0x1234).is_empty());
}

#[test]
fn fixture_report_order_contains_all_statuses() {
    let statuses = fixture_devices()[0]
        .validation_report
        .iter()
        .map(|item| item.status)
        .collect::<Vec<_>>();

    assert_eq!(
        statuses,
        [
            ValidationStatus::Success,
            ValidationStatus::Success,
            ValidationStatus::Blocked,
            ValidationStatus::Failure,
        ]
    );
}

#[test]
fn main_fixtures_require_an_explicit_flag_and_unknown_arguments_are_ignored() {
    assert_eq!(
        source_mode_from_args(&["reink-gui".to_owned(), "--unknown".to_owned()]),
        SourceMode::Real
    );
    assert_eq!(
        source_mode_from_args(&["reink-gui".to_owned(), "--fixtures".to_owned()]),
        SourceMode::Fixtures
    );
}

#[test]
fn tests_fixtures_require_an_explicit_flag_and_unknown_arguments_are_ignored() {
    assert_eq!(
        source_mode_from_args(&["reink-gui".to_owned(), "--unknown".to_owned()]),
        SourceMode::Real
    );
    assert_eq!(
        source_mode_from_args(&["reink-gui".to_owned(), "--fixtures".to_owned()]),
        SourceMode::Fixtures
    );
}

#[test]
fn main_model_bounded_image_fields_use_relative_offsets() {
    assert_eq!(eeprom_image_offset(0x0200, 0x20, 0x0214), Some(0x14));
    assert_eq!(eeprom_image_offset(0x0200, 0x20, 0x01ff), None);
    assert_eq!(eeprom_image_offset(0x0200, 0x20, 0x0220), None);
}

#[test]
fn tests_model_bounded_image_fields_use_relative_offsets() {
    assert_eq!(eeprom_image_offset(0x0200, 0x20, 0x0214), Some(0x14));
    assert_eq!(eeprom_image_offset(0x0200, 0x20, 0x01ff), None);
    assert_eq!(eeprom_image_offset(0x0200, 0x20, 0x0220), None);
}

#[test]
fn main_loaded_field_values_decode_multi_byte_data_and_hide_sensitive_values() {
    let counter = EepromFileField {
        address: 0x26,
        end_address: 0x27,
        label: "Waste counter".to_owned(),
        encoding: EepromFieldEncoding::U16Le,
        confidence: Some(EepromFieldConfidence::Confirmed),
        evidence_note: Some("Reviewed sanitized evidence.".to_owned()),
        sensitive: false,
    };
    let pages = EepromFileField {
        address: 0xb0,
        end_address: 0xb3,
        label: "Total print-page count".to_owned(),
        encoding: EepromFieldEncoding::U32Le,
        confidence: Some(EepromFieldConfidence::Confirmed),
        evidence_note: Some("Reviewed sanitized evidence.".to_owned()),
        sensitive: false,
    };
    let serial = EepromFileField {
        address: 0xc2,
        end_address: 0xcb,
        label: "Serial number".to_owned(),
        encoding: EepromFieldEncoding::Ascii,
        confidence: Some(EepromFieldConfidence::Confirmed),
        evidence_note: Some("Sensitive device-specific field.".to_owned()),
        sensitive: true,
    };
    let mut image = vec![0; 0xcc];
    image[0x26..0x28].copy_from_slice(&[0x34, 0x12]);
    image[0xb0..0xb4].copy_from_slice(&[0x78, 0x56, 0x34, 0x12]);
    image[0xc2..0xcc].copy_from_slice(b"PRIVATE-01");

    assert_eq!(eeprom_field_address_label(&counter), "0x0026..0x0027");
    assert_eq!(eeprom_field_value(&counter, 0, &image), "4660 (0x1234)");
    assert_eq!(
        eeprom_field_value(&pages, 0, &image),
        "305419896 (0x12345678)"
    );
    assert_eq!(eeprom_field_value(&serial, 0, &image), "Hidden (sensitive)");
    let tooltip = eeprom_field_tooltip(&serial);
    assert!(tooltip.contains("Confidence: Confirmed"));
    assert!(tooltip.contains("Sensitive device-specific field."));
    assert!(!tooltip.contains("PRIVATE-01"));
}

#[test]
fn tests_loaded_field_values_decode_multi_byte_data_and_hide_sensitive_values() {
    let counter = EepromFileField {
        address: 0x26,
        end_address: 0x27,
        label: "Waste counter".to_owned(),
        encoding: EepromFieldEncoding::U16Le,
        confidence: Some(EepromFieldConfidence::Confirmed),
        evidence_note: Some("Reviewed sanitized evidence.".to_owned()),
        sensitive: false,
    };
    let pages = EepromFileField {
        address: 0xb0,
        end_address: 0xb3,
        label: "Total print-page count".to_owned(),
        encoding: EepromFieldEncoding::U32Le,
        confidence: Some(EepromFieldConfidence::Confirmed),
        evidence_note: Some("Reviewed sanitized evidence.".to_owned()),
        sensitive: false,
    };
    let serial = EepromFileField {
        address: 0xc2,
        end_address: 0xcb,
        label: "Serial number".to_owned(),
        encoding: EepromFieldEncoding::Ascii,
        confidence: Some(EepromFieldConfidence::Confirmed),
        evidence_note: Some("Sensitive device-specific field.".to_owned()),
        sensitive: true,
    };
    let mut image = vec![0; 0xcc];
    image[0x26..0x28].copy_from_slice(&[0x34, 0x12]);
    image[0xb0..0xb4].copy_from_slice(&[0x78, 0x56, 0x34, 0x12]);
    image[0xc2..0xcc].copy_from_slice(b"PRIVATE-01");

    assert_eq!(eeprom_field_address_label(&counter), "0x0026..0x0027");
    assert_eq!(eeprom_field_value(&counter, 0, &image), "4660 (0x1234)");
    assert_eq!(
        eeprom_field_value(&pages, 0, &image),
        "305419896 (0x12345678)"
    );
    assert_eq!(eeprom_field_value(&serial, 0, &image), "Hidden (sensitive)");
    let tooltip = eeprom_field_tooltip(&serial);
    assert!(tooltip.contains("Confidence: Confirmed"));
    assert!(tooltip.contains("Sensitive device-specific field."));
    assert!(!tooltip.contains("PRIVATE-01"));
}

#[test]
fn main_guarded_operation_inputs_require_exact_confirmation_and_bounded_bytes() {
    assert!(confirmation_matches(
        "I_CONFIRM_THIS_WILL_WRITE_EEPROM",
        "I_CONFIRM_THIS_WILL_WRITE_EEPROM"
    ));
    assert!(!confirmation_matches(
        "i_confirm_this_will_write_eeprom",
        "I_CONFIRM_THIS_WILL_WRITE_EEPROM"
    ));
    assert_eq!(parse_u16_input("0x00FF"), Ok(0x00ff));
    assert_eq!(parse_u16_input("255"), Ok(255));
    assert!(parse_u16_input("0x10000").is_err());
    assert_eq!(parse_u8_input("0x7F"), Ok(0x7f));
    assert!(parse_u8_input("256").is_err());
}

#[test]
fn tests_guarded_operation_inputs_require_exact_confirmation_and_bounded_bytes() {
    assert!(confirmation_matches(
        "I_CONFIRM_THIS_WILL_WRITE_EEPROM",
        "I_CONFIRM_THIS_WILL_WRITE_EEPROM"
    ));
    assert!(!confirmation_matches(
        "i_confirm_this_will_write_eeprom",
        "I_CONFIRM_THIS_WILL_WRITE_EEPROM"
    ));
    assert_eq!(parse_u16_input("0x00FF"), Ok(0x00ff));
    assert_eq!(parse_u16_input("255"), Ok(255));
    assert!(parse_u16_input("0x10000").is_err());
    assert_eq!(parse_u8_input("0x7F"), Ok(0x7f));
    assert!(parse_u8_input("256").is_err());
}

#[test]
fn native_mutation_requires_a_distinct_exact_experimental_acknowledgement() {
    assert!(confirmation_matches(
        WINDOWS_NATIVE_EXPERIMENTAL_MUTATION_ACKNOWLEDGEMENT,
        WINDOWS_NATIVE_EXPERIMENTAL_MUTATION_ACKNOWLEDGEMENT
    ));
    assert!(!confirmation_matches(
        "I_ACKNOWLEDGE_WINDOWS_NATIVE_MUTATION_IS_EXPERIMENTAL ",
        WINDOWS_NATIVE_EXPERIMENTAL_MUTATION_ACKNOWLEDGEMENT
    ));
    assert_ne!(
        EEPROM_WRITE_CONFIRMATION,
        WINDOWS_NATIVE_EXPERIMENTAL_MUTATION_ACKNOWLEDGEMENT
    );
    assert!(require_native_experimental_mutation_acknowledgement(true).is_ok());
    assert!(require_native_experimental_mutation_acknowledgement(false).is_err());
}

#[test]
fn main_unassociated_usb_candidate_accepts_only_a_known_expected_model() {
    let state = GuiState::new().unwrap();
    let candidate = DescriptorCandidate {
        alias: "usb-1".to_owned(),
        backend: DescriptorCandidateBackend::LibUsb,
        vendor_id: 0x04b8,
        product_id: 0x0001,
        bus_number: Some(1),
        device_address: Some(1),
        interface_number: Some(0),
        alternate_setting: Some(0),
        model_hints: Vec::new(),
    };

    assert_eq!(
        selected_model_for_usb_candidate(&state, Some(&candidate), Some("C90")),
        Some("C90")
    );
    assert_eq!(
        selected_model_for_usb_candidate(&state, Some(&candidate), Some("not-a-model")),
        None
    );
}

#[test]
fn tests_unassociated_usb_candidate_accepts_only_a_known_expected_model() {
    let state = GuiState::new().unwrap();
    let candidate = DescriptorCandidate {
        alias: "usb-1".to_owned(),
        backend: DescriptorCandidateBackend::LibUsb,
        vendor_id: 0x04b8,
        product_id: 0x0001,
        bus_number: Some(1),
        device_address: Some(1),
        interface_number: Some(0),
        alternate_setting: Some(0),
        model_hints: Vec::new(),
    };

    assert_eq!(
        selected_model_for_usb_candidate(&state, Some(&candidate), Some("C90")),
        Some("C90")
    );
    assert_eq!(
        selected_model_for_usb_candidate(&state, Some(&candidate), Some("not-a-model")),
        None
    );
}

#[test]
fn native_debug_capture_redacts_serials_across_read_boundaries() {
    let events = vec![
        TransportEvent::Tx(vec![1, 2]),
        TransportEvent::Rx(b"MFG:EPSON;SN:PRI".to_vec()),
        TransportEvent::Rx(b"VATE;MDL:C90;".to_vec()),
    ];
    let redacted = redact_native_identity_serials(events);
    let received = redacted
        .iter()
        .filter_map(|event| match event {
            TransportEvent::Rx(bytes) => Some(bytes.as_slice()),
            TransportEvent::Tx(_) => None,
        })
        .flatten()
        .copied()
        .collect::<Vec<_>>();
    assert_eq!(
        String::from_utf8(received).unwrap(),
        "MFG:EPSON;SN:XXXXXXX;MDL:C90;"
    );
}

#[test]
fn main_restore_preflight_rejects_multi_gib_sizes_before_reading() {
    let state = GuiState::new().unwrap();
    let spec = state.model_spec("C90").unwrap();

    assert!(validate_restore_image_size(spec, u64::MAX).is_err());
    assert!(validate_restore_image_size(spec, 0).is_err());
}

#[test]
fn tests_restore_preflight_rejects_multi_gib_sizes_before_reading() {
    let state = GuiState::new().unwrap();
    let spec = state.model_spec("C90").unwrap();

    assert!(validate_restore_image_size(spec, u64::MAX).is_err());
    assert!(validate_restore_image_size(spec, 0).is_err());
}

#[test]
fn main_operation_results_bound_private_value_and_status_displays() {
    assert_eq!(
        format_current_values(&[(0x0006, 0x18), (0x0007, 0x04)]),
        "0x0006=0x18, 0x0007=0x04"
    );
    assert_eq!(
        display_status_response(b"@BDC ST2\r\nREADY\r\n"),
        "@BDC ST2\r\nREADY"
    );
    assert_eq!(
        display_status_response(&[0xff]),
        "Binary status response is not shown."
    );
}

#[test]
fn tests_operation_results_bound_private_value_and_status_displays() {
    assert_eq!(
        format_current_values(&[(0x0006, 0x18), (0x0007, 0x04)]),
        "0x0006=0x18, 0x0007=0x04"
    );
    assert_eq!(
        display_status_response(b"@BDC ST2\r\nREADY\r\n"),
        "@BDC ST2\r\nREADY"
    );
    assert_eq!(
        display_status_response(&[0xff]),
        "Binary status response is not shown."
    );
}

/// A candidate as the scan of the bus finds it.
fn found(product_id: u16) -> UsbPrinterCandidate {
    UsbPrinterCandidate {
        vendor_id: 0x04b8,
        product_id,
        bus_number: 1,
        device_address: 2,
        interface_number: 0,
        alternate_setting: 0,
    }
}

/// The interface with one candidate selected, and C90 expected.
fn expecting_c90() -> ReinkGui {
    let mut gui = ReinkGui::new(SourceMode::Real, Platform::Linux);
    gui.poll_usb_candidates(Ok(vec![found(0xffff)]));
    gui.select_candidate(0);
    gui.choose_expected_model("C90");
    gui
}

fn texts(items: &[Item]) -> Vec<String> {
    items
        .iter()
        .filter_map(|item| match item {
            Item::Text { text, .. } => Some(text.clone()),
            _ => None,
        })
        .collect()
}

fn actions(items: &[Item]) -> Vec<Action> {
    items
        .iter()
        .filter_map(|item| match item {
            Item::Button { enabled: true, action, .. } => Some(*action),
            _ => None,
        })
        .collect()
}

#[test]
fn names_are_filtered_by_a_pattern_that_ignores_case() {
    let names: Vec<String> = ["C90", "XP-352", "XP-15000"]
        .iter()
        .map(|name| (*name).to_owned())
        .collect();
    assert_eq!(filter_names("", &names), (names.clone(), false));
    assert_eq!(
        filter_names("^xp-", &names),
        (vec!["XP-352".to_owned(), "XP-15000".to_owned()], false)
    );
    assert_eq!(filter_names("0$", &names).0, ["C90", "XP-15000"]);
    let (shown, broken) = filter_names("(", &names);
    assert!(broken);
    assert!(shown.is_empty());
    assert!(shows_name(true, None));
    assert!(!shows_name(false, None));
    assert!(shows_name(false, Some(true)));
    assert!(is_broken_filter(false, false));
    assert!(!is_broken_filter(true, false));
}

#[test]
fn long_texts_keep_their_end() {
    assert_eq!(end_truncate("short", 5), "short");
    assert_eq!(end_truncate("a long label", 6), "\u{2026}label");
    assert_eq!(end_truncate("label", 0), "\u{2026}");
}

#[test]
fn dump_lines_show_only_printable_characters() {
    assert_eq!(ascii_dump_line(&[0x41, 0x00, 0x7e, 0x7f, 0x20]), "A.~. ");
}

#[test]
fn typed_updates_name_their_problem() {
    let state = GuiState::new().unwrap();
    let settings = state.model_spec("C90").unwrap();
    assert_eq!(read_update(settings, "0x0c", "1"), Ok((0x0c, 1)));
    assert!(read_update(settings, "", "1").is_err());
    assert!(read_update(settings, "0x0c", "256").is_err());
    assert_eq!(
        read_update(settings, "0xffff", "1").unwrap_err(),
        "Address 0xFFFF is outside the selected model range."
    );
}

#[test]
fn a_restore_image_is_judged_before_and_after_it_is_read() {
    let state = GuiState::new().unwrap();
    let settings = state.model_spec("C90").unwrap();
    let length = expected_restore_image_length(settings);
    assert_eq!(validate_restore_image_size(settings, length as u64), Ok(length));
    let facts = |is_file: bool, size: usize| FileFacts { is_file, size: size as u64 };
    assert!(preflight_stat("image.bin", settings, Ok(facts(true, length))).is_ok());
    assert!(preflight_stat("image.bin", settings, Ok(facts(false, length))).is_err());
    assert!(preflight_stat("image.bin", settings, Ok(facts(true, length + 1))).is_err());
    assert!(preflight_stat("image.bin", settings, Err("gone".to_owned())).is_err());
    assert!(preflight_opened("image.bin", settings, Ok(facts(true, length))).is_ok());
    let image = preflight_read("image.bin", settings, Ok(vec![3; length])).unwrap();
    assert_eq!(image.bytes, vec![3; length]);
    assert_eq!(image.update_count, length);
    assert!(preflight_read("image.bin", settings, Ok(vec![3; length - 1])).is_err());
    assert_eq!(
        preflight_open_failure("image.bin", "denied"),
        "Could not open selected restore image image.bin: denied"
    );
    assert!(preflight_read("image.bin", settings, Err("gone".to_owned())).is_err());
}

#[test]
fn cleanup_is_told_step_by_step() {
    let cleanup = UsbSessionCleanup {
        d4_shutdown: UsbCleanupStatus::NotAttempted,
        usb_close: UsbCleanupStatus::Failed("stuck".to_owned()),
    };
    let lines = cleanup_report_lines(&cleanup);
    assert_eq!(lines.len(), 2);
    assert!(lines[1].contains("stuck"), "{lines:?}");
}

#[test]
fn fixture_mode_starts_on_a_fixture_and_real_mode_scans() {
    let fixtures = ReinkGui::new(SourceMode::Fixtures, Platform::Linux);
    assert!(fixtures.fixture_selected());
    let mut real = ReinkGui::new(SourceMode::Real, Platform::Linux);
    assert!(!real.fixture_selected());
    real.refresh_usb_candidates();
    assert!(matches!(real.usb_scan_status, UsbScanStatus::Scanning));
    real.poll_usb_candidates(Err("no permission".to_owned()));
    assert!(real.usb_scan_status_label().contains("no permission"));
    assert!(real.selected_usb_candidate().is_none());
}

#[test]
fn an_operation_starts_only_for_a_known_expected_model() {
    let mut gui = ReinkGui::new(SourceMode::Real, Platform::Linux);
    assert!(gui.start_selected_usb_operation().is_none());
    gui.poll_usb_candidates(Ok(vec![found(0xffff)]));
    gui.select_candidate(0);
    assert!(!gui.usb_operation_in_progress());
    assert!(gui.start_selected_usb_operation().is_none());
    gui.choose_expected_model("not-a-model");
    assert!(gui.start_selected_usb_operation().is_none());
    gui.choose_expected_model("C90");
    let started = gui.start_selected_usb_operation().unwrap();
    assert_eq!(started.expected_model, "C90");
    assert_eq!(started.candidate.product_id, 0xffff);
    assert!(!started.record_traffic);
    assert!(gui.usb_operation_in_progress());
    assert!(gui.start_selected_usb_operation().is_none());
}

#[test]
fn a_finished_operation_is_reported_with_its_cleanup() {
    let mut gui = expecting_c90();
    assert!(gui.start_selected_usb_operation().is_some());
    gui.poll_usb_operation(SelectedUsbSessionOutcome {
        operation: Ok(UsbOperationSuccess::Status {
            model: "C90".to_owned(),
            response_bytes: 10,
            display: "@BDC ST2".to_owned(),
        }),
        cleanup: UsbSessionCleanup {
            d4_shutdown: UsbCleanupStatus::Succeeded,
            usb_close: UsbCleanupStatus::Failed("stuck".to_owned()),
        },
        events: vec![TransportEvent::Tx(vec![1])],
    });
    assert!(!gui.usb_operation_in_progress());
    let report = gui.usb_operation_result.as_ref().unwrap();
    assert!(!report.success);
    assert!(report.lines.iter().any(|line| line.contains("stuck")));
}

#[test]
fn a_write_runs_only_after_its_exact_confirmation() {
    let mut gui = expecting_c90();
    gui.press(Action::PrepareWrite);
    assert!(gui.selected_operation_dialog().is_some());
    gui.edit_entry(Entry::Address, "0x0c");
    gui.edit_entry(Entry::Value, "0x01");
    gui.edit_entry(Entry::Confirmation, EEPROM_WRITE_CONFIRMATION);
    assert!(gui.confirm_operation().is_none());
    gui.choose_backup_file("backup.bin");
    gui.edit_entry(Entry::Confirmation, EEPROM_RESTORE_CONFIRMATION);
    assert!(gui.confirm_operation().is_none());
    gui.edit_entry(Entry::Confirmation, EEPROM_WRITE_CONFIRMATION);
    assert!(actions(&gui.selected_operation_dialog().unwrap()).contains(&Action::Run));
    assert_eq!(
        gui.confirm_operation().unwrap(),
        UsbOperationRequest::Write {
            updates: vec![(0x0c, 1)],
            backup_file: "backup.bin".to_owned(),
        }
    );
    assert!(gui.selected_operation_dialog().is_none());
}

#[test]
fn a_cancelled_operation_is_forgotten() {
    let mut gui = expecting_c90();
    gui.press(Action::PrepareReset(CounterResetTarget::Waste));
    let pending = gui.pending_usb_operation.as_ref().unwrap();
    assert!(!pending.title().is_empty());
    assert!(!pending.suggested_backup_name().is_empty());
    gui.cancel_operation();
    assert!(gui.pending_usb_operation.is_none());
    assert!(gui.confirm_operation().is_none());
}

#[test]
fn a_restore_runs_only_with_an_image_that_was_accepted() {
    let mut gui = expecting_c90();
    let length = expected_restore_image_length(gui.state.model_spec("C90").unwrap());
    gui.prepare_operation(PendingUsbOperation::Restore {
        restore_image: None,
        backup_file: Some("rollback.bin".to_owned()),
        confirmation: EEPROM_RESTORE_CONFIRMATION.to_owned(),
    });
    assert!(gui.confirm_operation().is_none());
    gui.choose_restore_image(RestoreImagePreflight {
        path: "image.bin".to_owned(),
        result: Err("too short".to_owned()),
    });
    assert!(gui.confirm_operation().is_none());
    gui.choose_restore_image(RestoreImagePreflight {
        path: "image.bin".to_owned(),
        result: Ok(ValidatedRestoreImage {
            bytes: vec![9; length],
            update_count: length,
        }),
    });
    assert_eq!(
        gui.confirm_operation().unwrap(),
        UsbOperationRequest::Restore {
            image: vec![9; length],
            backup_file: "rollback.bin".to_owned(),
        }
    );
}

#[test]
fn an_opened_image_shows_the_fields_of_its_model() {
    let mut gui = ReinkGui::new(SourceMode::Real, Platform::Linux);
    gui.open_eeprom_file("image.bin", Err("gone".to_owned()));
    assert!(gui.file_error.as_ref().unwrap().contains("gone"));
    gui.open_eeprom_file("image.bin", Ok(vec![0x5a; 256]));
    assert!(gui.file_error.is_none());
    assert!(gui.source_label().contains("image.bin"));
    assert_eq!(gui.eeprom_bytes().len(), 256);
    gui.choose_file_model("C90");
    assert!(!gui.file_fields().is_empty());
    gui.select_eeprom_address(0x0c);
    assert_eq!(gui.selected_address(), 0x0c);
    assert_eq!(gui.selected_value(), 0x5a);
    assert!(!gui.selected_field_label().is_empty());
    gui.navigate_to(Page::Eeprom);
    let shown = gui.eeprom_viewer();
    assert_eq!(
        shown
            .iter()
            .filter(|item| matches!(item, Item::DumpLine { .. }))
            .count(),
        16
    );
}

#[test]
fn each_page_has_its_own_content() {
    let mut gui = ReinkGui::new(SourceMode::Fixtures, Platform::Linux);
    let strip = gui.tab_strip_pane();
    assert_eq!(strip.tabs.len(), 3);
    let status = texts(&gui.primary_content_pane());
    assert_eq!(status, texts(&gui.status()));
    gui.press(Action::ShowPage(Page::Tools));
    assert_eq!(gui.state.page(), Page::Tools);
    assert_eq!(texts(&gui.primary_content_pane()), texts(&gui.tools()));
    assert!(!gui
        .tools()
        .iter()
        .any(|item| matches!(item, Item::ReportRow { .. })));
    gui.press(Action::RunValidation);
    assert_eq!(
        gui.tools()
            .iter()
            .filter(|item| matches!(item, Item::ReportRow { .. }))
            .count(),
        5
    );
    gui.press(Action::SelectFixture(1));
    assert_eq!(gui.state.selected_fixture_index(), 1);
}

#[test]
fn the_traffic_pane_lists_what_was_captured() {
    let mut gui = expecting_c90();
    gui.press(Action::CaptureTraffic(true));
    assert!(gui.start_selected_usb_operation().unwrap().record_traffic);
    assert_eq!(
        gui.append_recorded_transport_events(vec![TransportEvent::Tx(vec![0x1b, 0x40])]),
        1
    );
    assert!(gui
        .debug_traffic_pane()
        .iter()
        .any(|item| matches!(item, Item::Transfer { .. })));
    gui.press(Action::ClearTraffic);
    assert_eq!(gui.debug_traffic.count(), 0);
}

#[test]
fn statuses_have_their_own_tones() {
    assert_eq!(status_color(ValidationStatus::Success), Tone::Success);
    assert_eq!(status_color(ValidationStatus::Blocked), Tone::Warning);
    assert_eq!(status_color(ValidationStatus::Failure), Tone::Failure);
}

#[test]
fn stock_driver_candidates_permit_only_what_the_driver_does() {
    let backend = DescriptorCandidateBackend::WindowsNative {
        persistent_mutation: false,
        experimental_mutation: true,
    };
    assert!(!backend.permits_persistent_mutation());
    assert!(backend.experimental_mutation());
    assert!(DescriptorCandidateBackend::LibUsb.permits_persistent_mutation());
    assert!(!DescriptorCandidateBackend::LibUsb.experimental_mutation());
    assert_ne!(backend.label(), DescriptorCandidateBackend::LibUsb.label());
}

#[test]
fn summaries_tell_the_same_for_every_write_key() {
    let summary_of = |key: &[u8; 9]| {
        let mut trace = capturing();
        trace.append(&TransportEvent::Tx(epson_d4_entry_command()));
        let mut payload = b"||\x11\x002\x08B\xbd!\x26\x00\xAA".to_vec();
        payload.extend_from_slice(key);
        trace.append(&TransportEvent::Tx(control_packet(&payload, 1, 0)));
        last_summary(&trace).to_owned()
    };
    let summary = summary_of(b"SENSITIVE");
    assert_eq!(summary, summary_of(b"\x00\x01\x02\x03\x04\x05\x06\x07\x08"));
    assert_eq!(summary, summary_of(b"ANOTHER!!"));
}

#[test]
fn an_operation_shows_what_a_fresh_trace_would_show() {
    let packet = control_packet(b"@BDC PS EE:002600;", 1, 0);
    let events = vec![
        TransportEvent::Rx(epson_d4_entry_reply()),
        TransportEvent::Rx(packet.clone()),
    ];
    let mut trace = capturing();
    trace.append(&TransportEvent::Rx(epson_d4_entry_reply()));
    trace.append(&TransportEvent::Rx(packet[..4].to_vec()));
    let earlier = trace.count();
    trace.begin_operation();
    trace.append_captured_events(events.clone());
    let mut fresh = capturing();
    fresh.append_captured_events(events);
    let shown = trace.entries();
    assert_eq!(shown.len(), earlier + fresh.count());
    for (entry, expected) in shown[earlier..].iter().zip(fresh.entries()) {
        assert_eq!(entry.summary(), expected.summary());
        assert_eq!(entry.direction(), expected.direction());
        assert_eq!(entry.hex_bytes(), expected.hex_bytes());
    }
}

/// The labels of the buttons that can be pressed, and the plain and strong texts.
fn buttons_and_texts(items: &[Item]) -> (Vec<(String, bool)>, Vec<String>) {
    let mut buttons = Vec::new();
    let mut texts = Vec::new();
    for item in items {
        match item {
            Item::Button { label, enabled, .. } => buttons.push((label.clone(), *enabled)),
            Item::Text { text, .. } => texts.push(text.clone()),
            _ => {}
        }
    }
    (buttons, texts)
}

#[test]
fn a_platform_without_usb_offers_no_search_and_no_operations() {
    let mut gui = ReinkGui::new(SourceMode::Real, Platform::Other);
    assert!(matches!(gui.usb_scan_status, UsbScanStatus::Unavailable));
    gui.press(Action::RefreshCandidates);
    assert!(matches!(gui.usb_scan_status, UsbScanStatus::Unavailable));
    gui.poll_usb_candidates(Err("no permission".to_owned()));
    assert!(matches!(gui.usb_scan_status, UsbScanStatus::Unavailable));
    gui.press(Action::PrepareWrite);
    assert!(gui.pending_usb_operation.is_none());
    assert!(gui.start_selected_usb_operation().is_none());
    assert!(gui.usb_operation_result.is_none());

    let strip = gui.tab_strip_pane();
    let (buttons, texts) = buttons_and_texts(&strip.bar);
    assert_eq!(buttons, [("Refresh USB candidates".to_owned(), false)]);
    assert!(texts
        .iter()
        .any(|text| text == "USB descriptor enumeration is unavailable on Windows."));
    let (_, texts) = buttons_and_texts(&strip.sources);
    assert!(texts.iter().any(|text| text == "No USB descriptor candidates"));

    gui.open_eeprom_file("image.bin", Ok(vec![1, 2, 3]));
    let (buttons, texts) = buttons_and_texts(&gui.eeprom_viewer());
    assert_eq!(
        buttons,
        [("Prepare guarded write of selected byte...".to_owned(), false)]
    );
    assert!(texts
        .iter()
        .any(|text| text == "Selected-printer EEPROM writes are unavailable on this platform."));

    for platform in [Platform::Linux, Platform::MacOs, Platform::Windows] {
        let gui = ReinkGui::new(SourceMode::Real, platform);
        assert!(matches!(gui.usb_scan_status, UsbScanStatus::Scanning));
    }
}

#[test]
fn a_write_is_summed_up_word_by_word() {
    for key in [b"SENSITIVE", b"ANOTHER!!", b"\x00\x01\x02\x03\x04\x05\x06\x07\x08"] {
        let mut trace = capturing();
        trace.append(&TransportEvent::Tx(epson_d4_entry_command()));
        let mut payload = b"||\x11\x002\x08B\xbd!\x26\x00\xAA".to_vec();
        payload.extend_from_slice(key);
        trace.append(&TransportEvent::Tx(control_packet(&payload, 1, 0)));
        assert_eq!(
            last_summary(&trace),
            "TX d4=packet request_response=request peer_socket=2 source_socket=2 total_length=27 \
             payload_length=21 credit=1 control=0x00 control_bits=0b00 command=|| \
             payload_length=17 factory_key=0x0832 operation=B operation_complement=0xBD \
             complement_valid=true check=0x21 check_valid=true address_bytes=26 00 \
             address=0x0026 value=0xAA write_key_length=9"
        );
    }
}
