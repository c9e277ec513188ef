//! Sessions with a printer, and the operations of the commands and of the
//! graphical interface in them.
use std::collections::VecDeque;

use reink::command::{encode_command, encode_eeprom_read, encode_eeprom_write};
use reink::d4_session::{EpsonD4Session, ReadOnlyEpsonD4Session};
use reink::database::ModelDatabase;
use reink::epson::{CounterResetTarget, EpsonSpec};
use reink::identity::PrinterIdentity;
use reink::link::D4Error;
use reink::operation::{
    apply_plan, apply_saved_plan, dump_verified, prepare_verified, read_verified_eeprom, read_verified_identity,
    read_verified_status,
};
use reink::packet::Packet;
use reink::platform::{ByteTransport, RecordingTransport, TransportError, TransportEvent};
use reink::selected::{
    begin_operation, expected_settings, finish_dump, finish_mutation, plan_current_values,
    prepare_request, report_blocked, report_operation, OperationStep, PreparedRequest,
    UsbOperationRequest, UsbOperationSuccess,
};
use reink::session::{
    declared_counter_reset_updates, epson_d4_entry_command, epson_d4_entry_reply,
    probe_epson_d4_entry, restore_eeprom_updates, setup_cleanup, validate_eeprom_updates,
    verify_exact_model, wait_for_entry_reply, ApplicationError, EepromImage, EepromWritePlan,
    EpsonD4EntryProbeResult, FirstWriteBackupGate, SelectedUsbSessionOutcome, UsbCleanupStatus,
    UsbSessionCleanup, ENTRY_REPLY_READ_LIMIT,
};
use reink::transaction::{ProtocolRevision, TransactionMessage};

enum Step {
    Write(Vec<u8>),
    Read(Vec<u8>),
}

/// A transport that plays back a conversation, in its order.
struct TranscriptTransport {
    steps: VecDeque<Step>,
}

impl TranscriptTransport {
    fn new() -> Self {
        TranscriptTransport {
            steps: VecDeque::new(),
        }
    }

    fn expect_write(&mut self, bytes: Vec<u8>) {
        self.steps.push_back(Step::Write(bytes));
    }

    fn respond(&mut self, bytes: &[u8]) {
        self.steps.push_back(Step::Read(bytes.to_vec()));
    }

    fn respond_fragmented(&mut self, packet: Vec<u8>) {
        let split = packet.len().min(3);
        self.respond(&packet[..split]);
        self.respond(&packet[split..]);
    }

    fn assert_finished(&self) {
        assert!(self.steps.is_empty());
    }
}

impl ByteTransport for TranscriptTransport {
    fn write_all(&mut self, bytes: &[u8]) -> Result<(), TransportError> {
        match self.steps.pop_front() {
            Some(Step::Write(expected)) => {
                assert_eq!(bytes, expected.as_slice());
                Ok(())
            }
            _ => Err(TransportError {
                message: "unexpected write".to_owned(),
            }),
        }
    }

    fn read(&mut self, limit: usize) -> Result<Vec<u8>, TransportError> {
        match self.steps.pop_front() {
            Some(Step::Read(mut bytes)) => {
                if bytes.len() > limit {
                    let rest = bytes.split_off(limit);
                    self.steps.push_front(Step::Read(rest));
                }
                Ok(bytes)
            }
            _ => Err(TransportError {
                message: "unexpected read".to_owned(),
            }),
        }
    }
}

fn spec() -> EpsonSpec {
    ModelDatabase::builtin()
        .unwrap()
        .get("C90")
        .unwrap()
        .duplicate()
}

fn small_spec() -> EpsonSpec {
    let mut spec = spec();
    spec.memory_low = 0x0c;
    spec.memory_high = 0x0d;
    spec
}

fn packet(peer: u8, source: u8, payload: &[u8]) -> Vec<u8> {
    Packet::new(peer, source, payload.to_vec(), 1, 0)
        .unwrap()
        .encode()
}

fn transaction_packet(message: TransactionMessage) -> Vec<u8> {
    packet(0, 0, &message.encode(ProtocolRevision::V20).unwrap())
}

fn expect_entry(target: &mut TranscriptTransport) {
    let reply = epson_d4_entry_reply();
    target.expect_write(epson_d4_entry_command());
    target.respond(&reply[..4]);
    target.respond(&reply[4..]);
}

fn expect_initialization(target: &mut TranscriptTransport) {
    target.expect_write(packet(0, 0, &[0, 0x20]));
    target.respond_fragmented(transaction_packet(TransactionMessage::InitReply {
        result: 0,
        revision: ProtocolRevision::V20,
    }));
    target.expect_write(packet(0, 0, b"\x09EPSON-CTRL"));
    target.respond_fragmented(transaction_packet(TransactionMessage::GetSocketIdReply {
        result: 0,
        socket_id: 2,
        service_name: "EPSON-CTRL".to_owned(),
    }));
    target.expect_write(packet(0, 0, b"\x01\x02\x02\x01\x00\x01\x00\x00\x00"));
}

fn expect_setup(target: &mut TranscriptTransport) {
    expect_entry(target);
    expect_initialization(target);
    target.respond_fragmented(transaction_packet(TransactionMessage::OpenChannelReply {
        result: 0,
        peer_socket: 2,
        source_socket: 2,
        max_packet_size: 0x100,
        max_service_size: 0x100,
        max_credit: 0,
        granted_credit: 1,
    }));
}

fn expect_request(target: &mut TranscriptTransport, request: Vec<u8>, reply: &[u8]) {
    target.expect_write(packet(2, 2, &request));
    target.respond_fragmented(packet(2, 2, reply));
}

fn expect_identity(target: &mut TranscriptTransport, reply: &[u8]) {
    expect_request(target, encode_command(*b"di", &[1]).unwrap(), reply);
}

fn expect_shutdown(target: &mut TranscriptTransport, close: u8, exit: u8) {
    target.expect_write(packet(0, 0, b"\x02\x02\x02"));
    target.respond_fragmented(transaction_packet(TransactionMessage::CloseChannelReply {
        result: close,
        peer_socket: 2,
        source_socket: 2,
    }));
    target.expect_write(packet(0, 0, &[0x08]));
    target.respond_fragmented(transaction_packet(TransactionMessage::ExitReply {
        result: exit,
    }));
}

fn connect(target: TranscriptTransport, spec: EpsonSpec) -> EpsonD4Session<TranscriptTransport> {
    match EpsonD4Session::connect(target, spec) {
        Ok(session) => session,
        Err(error) => panic!("{}", error.message()),
    }
}

fn succeeded() -> UsbSessionCleanup {
    UsbSessionCleanup {
        d4_shutdown: UsbCleanupStatus::Succeeded,
        usb_close: UsbCleanupStatus::Succeeded,
    }
}

#[test]
fn first_write_requires_an_explicit_backup_decision() {
    let mut gate = FirstWriteBackupGate::default();
    assert!(gate.requires_backup_choice());

    gate.record_backup_saved();

    assert!(!gate.requires_backup_choice());
}

#[test]
fn explicit_backup_decline_resolves_the_first_write_prompt() {
    let mut gate = FirstWriteBackupGate::default();

    gate.record_backup_declined();

    assert!(!gate.requires_backup_choice());
}

#[test]
fn entry_probe_retries_an_empty_read_before_the_reply() {
    let mut target = TranscriptTransport::new();
    target.respond(&[]);
    target.respond(&epson_d4_entry_reply());

    assert!(wait_for_entry_reply(&mut target).is_ok());
    target.assert_finished();
}

#[test]
fn write_plan_requires_unique_model_bounded_addresses() {
    let spec = spec();
    assert!(validate_eeprom_updates(&spec, &[]).is_err());
    assert!(validate_eeprom_updates(&spec, &[(spec.memory_low, 1), (spec.memory_low, 2)]).is_err());
    assert!(validate_eeprom_updates(&spec, &[(spec.memory_high.saturating_add(1), 1)]).is_err());
    assert!(validate_eeprom_updates(&spec, &[(spec.memory_low, 1)]).is_ok());
}

#[test]
fn selected_model_must_exactly_match_the_connected_identity() {
    let matching = PrinterIdentity::parse("MFG:EPSON;MDL:C90;SN:private;").ok().unwrap();
    let mismatched = PrinterIdentity::parse("MFG:EPSON;MDL:XP-352 Series;").ok().unwrap();

    assert!(verify_exact_model(&matching, "C90").is_ok());
    assert!(verify_exact_model(&mismatched, "C90").is_err());
}

#[test]
fn restore_updates_cover_the_exact_model_range() {
    let spec = spec();
    let length = usize::from(spec.memory_high).saturating_sub(usize::from(spec.memory_low)) + 1;
    let image = vec![0x5a; length];

    let updates = restore_eeprom_updates(&spec, &image).unwrap();

    assert_eq!(updates.len(), length);
    assert_eq!(updates.first(), Some(&(spec.memory_low, 0x5a)));
    assert_eq!(updates.last(), Some(&(spec.memory_high, 0x5a)));
    assert!(restore_eeprom_updates(&spec, &image[..length - 1]).is_err());
}

#[test]
fn declared_counter_reset_excludes_undeclared_counter_families() {
    let c90 = spec();

    assert!(
        !declared_counter_reset_updates(&c90, CounterResetTarget::Waste)
            .unwrap()
            .is_empty()
    );
    assert!(declared_counter_reset_updates(&c90, CounterResetTarget::PlatenPad).is_err());
}

#[test]
fn opens_a_read_only_session_and_reads_status_identity_and_eeprom() {
    let spec = spec();
    let mut target = TranscriptTransport::new();
    expect_setup(&mut target);
    expect_request(
        &mut target,
        encode_command(*b"st", &[1]).unwrap(),
        b"@BDC ST2\r\nREADY\r\n",
    );
    expect_identity(&mut target, b"@EJL ID MFG:EPSON;MDL:C90;");
    expect_request(
        &mut target,
        encode_eeprom_read(&spec, 0x0c).unwrap(),
        b"@BDC PS EE:0C4200;",
    );
    expect_shutdown(&mut target, 0, 0);

    let mut session = connect(target, spec);

    assert_eq!(session.read_status().ok().unwrap(), b"@BDC ST2\r\nREADY\r\n");
    assert_eq!(
        session
            .read_identity()
            .ok()
            .unwrap()
            .model()
            .map(String::as_str),
        Some("C90")
    );
    assert_eq!(session.read_eeprom(&[0x0c]).ok().unwrap()[0].value, 0x42);
    assert!(session.shutdown().is_ok());
    session.into_transport().assert_finished();
}

#[test]
fn shutdown_exits_after_close_failure_and_reports_both_failures() {
    let mut target = TranscriptTransport::new();
    expect_setup(&mut target);
    expect_shutdown(&mut target, 1, 1);

    let mut session = connect(target, spec());
    let error = session.shutdown().unwrap_err();

    assert!(matches!(
        &error,
        ApplicationError::Shutdown {
            close: Some(D4Error::DeviceRejected { result: 1 }),
            exit: Some(D4Error::UnexpectedTransactionReply),
        }
    ));
    assert!(error.message().contains("D4 conversation exit also failed"));
    session.into_transport().assert_finished();
}

#[test]
fn rejects_an_unrecognized_epson_entry_reply() {
    let mut target = TranscriptTransport::new();
    target.expect_write(epson_d4_entry_command());
    for byte in [0x00u8, 0x00, 0x00, 0x08, 0x01] {
        target.respond(&[byte]);
    }

    let error = match EpsonD4Session::connect(target, spec()) {
        Ok(_) => panic!("unrecognized Epson entry reply unexpectedly opened a D4 session"),
        Err(error) => error,
    };

    assert!(matches!(error, ApplicationError::EntryReplyInvalid));
}

#[test]
fn recoverable_connect_returns_the_transport_after_setup_failure() {
    let mut target = TranscriptTransport::new();
    target.expect_write(epson_d4_entry_command());
    for byte in [0x00u8, 0x00, 0x00, 0x08, 0x01] {
        target.respond(&[byte]);
    }

    let (error, target) = match EpsonD4Session::connect_recoverable(target, spec()) {
        Ok(_) => panic!("unrecognized Epson entry reply unexpectedly opened a D4 session"),
        Err(recovery) => recovery,
    };

    assert!(matches!(error, ApplicationError::EntryReplyInvalid));
    target.assert_finished();
}

#[test]
fn failed_service_setup_attempts_an_orderly_d4_exit() {
    let mut target = TranscriptTransport::new();
    expect_entry(&mut target);
    expect_initialization(&mut target);
    target.respond_fragmented(packet(0, 0, &[0x81]));
    target.expect_write(packet(0, 0, &[0x08]));
    target.respond_fragmented(transaction_packet(TransactionMessage::ExitReply {
        result: 0,
    }));

    let (error, target) = match EpsonD4Session::connect_recoverable(target, spec()) {
        Ok(_) => panic!("malformed service reply unexpectedly opened a D4 session"),
        Err(recovery) => recovery,
    };

    assert!(matches!(error, ApplicationError::SetupRecovered { .. }));
    assert_eq!(setup_cleanup(&error), UsbCleanupStatus::Succeeded);
    target.assert_finished();
}

#[test]
fn a_missing_entry_reply_is_told_apart_from_a_wrong_one() {
    let mut target = TranscriptTransport::new();
    for _ in 0..5 {
        target.respond(&[]);
    }
    assert!(matches!(
        wait_for_entry_reply(&mut target),
        Err(ApplicationError::EntryReplyMissing)
    ));
}

#[test]
fn a_probe_sends_the_entry_command_alone() {
    let reply = epson_d4_entry_reply();
    let mut target = TranscriptTransport::new();
    expect_entry(&mut target);
    assert!(matches!(
        probe_epson_d4_entry(&mut target),
        Ok(EpsonD4EntryProbeResult::Recognized)
    ));
    target.assert_finished();

    let mut target = TranscriptTransport::new();
    target.expect_write(epson_d4_entry_command());
    target.respond(&reply[..3]);
    for _ in 1..ENTRY_REPLY_READ_LIMIT {
        target.respond(&[]);
    }
    assert!(matches!(
        probe_epson_d4_entry(&mut target),
        Ok(EpsonD4EntryProbeResult::Unrecognized { received_bytes: 3 })
    ));
    target.assert_finished();

    let mut target = TranscriptTransport::new();
    target.expect_write(epson_d4_entry_command());
    match probe_epson_d4_entry(&mut target) {
        Err(error) => assert_eq!(error.message(), "transport error: unexpected read"),
        Ok(_) => panic!("the read has failed"),
    }
    assert!(probe_epson_d4_entry(&mut TranscriptTransport::new()).is_err());
}

#[test]
fn operations_stop_at_a_printer_of_another_model() {
    let mut target = TranscriptTransport::new();
    expect_setup(&mut target);
    for _ in 0..5 {
        expect_identity(&mut target, b"@EJL ID MFG:EPSON;MDL:XP-352;");
    }
    let mut session = connect(target, spec());
    assert_eq!(
        read_verified_status(&mut session, "C90", true).unwrap_err(),
        "printer identity model \"XP-352\" does not match requested model \"C90\""
    );
    assert_eq!(
        dump_verified(&mut session, "C90", false).unwrap_err(),
        "printer identity model \"XP-352\" does not match selected model \"C90\""
    );
    assert!(read_verified_identity(&mut session, "C90", true).is_err());
    assert!(read_verified_eeprom(&mut session, "C90", true, &[0x0c]).is_err());
    assert!(prepare_verified(
        &mut session,
        "C90",
        true,
        &[(0x0c, 1)],
        "could not prepare EEPROM write: "
    )
    .is_err());
    session.into_transport().assert_finished();
}

#[test]
fn a_verified_plan_is_written_verified_and_undone_after_a_failure() {
    let spec = small_spec();
    let mut target = TranscriptTransport::new();
    expect_setup(&mut target);
    expect_identity(&mut target, b"@EJL ID MFG:EPSON;MDL:C90;");
    for (address, reply) in [
        (0x0c, &b"@BDC PS EE:0C1000;"[..]),
        (0x0d, &b"@BDC PS EE:0D2000;"[..]),
    ] {
        expect_request(
            &mut target,
            encode_eeprom_read(&spec, address).unwrap(),
            reply,
        );
    }
    expect_request(
        &mut target,
        encode_eeprom_write(&spec, 0x0c, 0x42).unwrap(),
        b":OK;",
    );
    expect_request(
        &mut target,
        encode_eeprom_read(&spec, 0x0c).unwrap(),
        b"@BDC PS EE:0C4200;",
    );
    expect_request(
        &mut target,
        encode_eeprom_write(&spec, 0x0d, 0x43).unwrap(),
        b":NA;",
    );
    expect_request(
        &mut target,
        encode_eeprom_write(&spec, 0x0c, 0x10).unwrap(),
        b":OK;",
    );
    expect_request(
        &mut target,
        encode_eeprom_read(&spec, 0x0c).unwrap(),
        b"@BDC PS EE:0C1000;",
    );

    let mut session = connect(target, small_spec());
    let plan = prepare_verified(
        &mut session,
        "C90",
        true,
        &[(0x0c, 0x42), (0x0d, 0x43)],
        "could not prepare EEPROM write: ",
    )
    .unwrap();
    assert_eq!(plan.backup.bytes, [0x10, 0x20]);
    let error = apply_plan(&mut session, &plan, "EEPROM write failed: ").unwrap_err();
    assert!(error.starts_with("EEPROM write failed: "));
    assert!(error.contains("atomic EEPROM write failed at 0x000d"));
    assert!(!error.contains("rollback failed"));
    session.into_transport().assert_finished();
}

#[test]
fn plans_that_do_not_fit_the_session_are_refused_without_a_write() {
    let mut target = TranscriptTransport::new();
    expect_setup(&mut target);
    let mut session = connect(target, small_spec());
    let plan = EepromWritePlan {
        backup: EepromImage {
            model: "C90".to_owned(),
            start_address: 0x0c,
            bytes: vec![1],
        },
        updates: vec![(0x0c, 1)],
    };
    assert_eq!(
        apply_plan(&mut session, &plan, "").unwrap_err(),
        "invalid EEPROM write plan: backup does not match the active model range"
    );
    assert!(session.prepare_eeprom_write(&[]).is_err());
    session.into_transport().assert_finished();
}

#[test]
fn a_read_only_view_reads_what_its_session_reads() {
    let mut target = TranscriptTransport::new();
    expect_setup(&mut target);
    expect_identity(&mut target, b"@EJL ID MFG:EPSON;MDL:C90;");
    expect_request(
        &mut target,
        encode_eeprom_read(&small_spec(), 0x0c).unwrap(),
        b"@BDC PS EE:0C1000;",
    );
    expect_request(
        &mut target,
        encode_eeprom_read(&small_spec(), 0x0d).unwrap(),
        b"@BDC PS EE:0D2000;",
    );
    let mut session = connect(target, small_spec());
    let mut reader = ReadOnlyEpsonD4Session::new(&mut session);
    assert_eq!(reader.settings().model, "C90");
    assert!(reader.read_identity().is_ok());
    let image = reader.dump_eeprom().ok().unwrap();
    assert_eq!(image.bytes, [0x10, 0x20]);
    assert_eq!(image.end_address(), 0x0d);
    assert_eq!(image.value_at(0x0d), Some(0x20));
    assert_eq!(image.value_at(0x0e), None);
    session.into_transport().assert_finished();
}

#[test]
fn requests_are_prepared_before_the_printer_is_opened() {
    let spec = small_spec();
    let database = ModelDatabase::builtin().unwrap();
    assert_eq!(
        expected_settings(&database, "Unheard").unwrap_err(),
        "unknown selected expected model: Unheard"
    );
    assert!(expected_settings(&database, "C90").is_ok());
    assert!(matches!(
        prepare_request(&spec, UsbOperationRequest::Status),
        Ok(PreparedRequest::Status)
    ));
    match prepare_request(
        &spec,
        UsbOperationRequest::Restore {
            image: vec![1, 2],
            backup_file: "backup.bin".to_owned(),
        },
    ) {
        Ok(PreparedRequest::Mutation {
            action,
            updates,
            backup_file,
        }) => {
            assert_eq!(action, "restore");
            assert_eq!(updates, [(0x0c, 1), (0x0d, 2)]);
            assert_eq!(backup_file, "backup.bin");
        }
        _ => panic!("a restore of the right size was refused"),
    }
    assert!(prepare_request(
        &spec,
        UsbOperationRequest::Restore {
            image: vec![1],
            backup_file: "backup.bin".to_owned(),
        },
    )
    .is_err());
    assert!(prepare_request(
        &spec,
        UsbOperationRequest::Reset {
            target: CounterResetTarget::PlatenPad,
            backup_file: "backup.bin".to_owned(),
        },
    )
    .is_err());
}

#[test]
fn a_selected_write_saves_its_backup_before_it_writes() {
    let spec = small_spec();
    let mut target = TranscriptTransport::new();
    expect_setup(&mut target);
    for _ in 0..2 {
        expect_identity(&mut target, b"@EJL ID MFG:EPSON;MDL:C90;");
        expect_request(
            &mut target,
            encode_eeprom_read(&spec, 0x0c).unwrap(),
            b"@BDC PS EE:0C1000;",
        );
        expect_request(
            &mut target,
            encode_eeprom_read(&spec, 0x0d).unwrap(),
            b"@BDC PS EE:0D2000;",
        );
    }
    expect_request(
        &mut target,
        encode_eeprom_write(&spec, 0x0d, 0x43).unwrap(),
        b":OK;",
    );
    expect_request(
        &mut target,
        encode_eeprom_read(&spec, 0x0d).unwrap(),
        b"@BDC PS EE:0D4300;",
    );
    let mut session = connect(target, small_spec());

    for saved in [Err("disk full".to_owned()), Ok(())] {
        let request = PreparedRequest::Mutation {
            action: "write",
            updates: vec![(0x0d, 0x43)],
            backup_file: "backup.bin".to_owned(),
        };
        let step = begin_operation(&mut session, "C90", request).unwrap();
        let (action, plan, backup_file, current_values) = match step {
            OperationStep::SaveBackup {
                action,
                plan,
                backup_file,
                current_values,
            } => (action, plan, backup_file, current_values),
            _ => panic!("a mutation went on without its backup"),
        };
        assert_eq!(current_values, [(0x0d, 0x20)]);
        assert_eq!(plan_current_values(&plan).unwrap(), [(0x0d, 0x20)]);
        let failed = saved.is_err();
        let done = finish_mutation(
            &mut session,
            action,
            "C90".to_owned(),
            &plan,
            backup_file,
            current_values,
            saved,
        );
        if failed {
            assert_eq!(
                done.err().unwrap(),
                "disk full; pre-write current values captured from the complete backup: 0x000D=0x20"
            );
        } else {
            let report = report_operation(&done, &succeeded());
            assert!(report.success);
            assert_eq!(report.headline, "EEPROM write completed");
            assert_eq!(
                report.lines,
                [
                    "Exact D4 identity/model match confirmed for C90.",
                    "Created and synchronized complete pre-operation backup: backup.bin.",
                    "Current values captured before the write: 0x000D=0x20.",
                    "Read-back verification succeeded for all 1 written byte(s); rollback was not needed.",
                    "D4 shutdown: succeeded.",
                    "USB cleanup: succeeded.",
                ]
            );
        }
    }
    session.into_transport().assert_finished();
}

#[test]
fn selected_reads_end_with_a_status_or_an_image() {
    let spec = small_spec();
    let mut target = TranscriptTransport::new();
    expect_setup(&mut target);
    expect_identity(&mut target, b"@EJL ID MFG:EPSON;MDL:C90;");
    expect_request(
        &mut target,
        encode_command(*b"st", &[1]).unwrap(),
        b"READY\r\n",
    );
    expect_identity(&mut target, b"@EJL ID MFG:EPSON;MDL:C90;");
    expect_request(
        &mut target,
        encode_eeprom_read(&spec, 0x0c).unwrap(),
        b"@BDC PS EE:0C1000;",
    );
    expect_request(
        &mut target,
        encode_eeprom_read(&spec, 0x0d).unwrap(),
        b"@BDC PS EE:0D2000;",
    );
    let mut session = connect(target, small_spec());

    let done = match begin_operation(&mut session, "C90", PreparedRequest::Status).unwrap() {
        OperationStep::Done(done) => Ok(done),
        _ => panic!("a status needs no file"),
    };
    let mut cleanup = succeeded();
    cleanup.usb_close = UsbCleanupStatus::Failed("busy".to_owned());
    let report = report_operation(&done, &cleanup);
    assert!(!report.success);
    assert_eq!(
        report.headline,
        "Printer status read completed; cleanup needs attention"
    );
    assert_eq!(report.lines[1], "Status response (7 byte(s)): READY");
    assert_eq!(report.lines[3], "USB cleanup: failed (busy).");

    let request = PreparedRequest::Dump {
        output_file: "image.bin".to_owned(),
    };
    let (image, output_file) = match begin_operation(&mut session, "C90", request).unwrap() {
        OperationStep::SaveImage { image, output_file } => (image, output_file),
        _ => panic!("a dump needs a file"),
    };
    let done = finish_dump(image, output_file, Ok(()));
    let report = report_operation(&done, &succeeded());
    assert_eq!(report.headline, "EEPROM dump saved");
    assert_eq!(
        report.lines[1],
        "Saved a complete 2-byte model-bounded image (0x000C..=0x000D) to image.bin."
    );
    session.into_transport().assert_finished();
}

#[test]
fn failures_and_blocks_are_reported() {
    let failed: Result<UsbOperationSuccess, String> = Err("no answer".to_owned());
    let report = report_operation(&failed, &UsbSessionCleanup::not_attempted());
    assert!(!report.success);
    assert_eq!(report.headline, "Selected-printer operation failed");
    assert_eq!(report.lines[0], "no answer");
    assert_eq!(report.lines[2], "D4 shutdown: not attempted.");
    let report = report_blocked("Wait.");
    assert_eq!(report.headline, "Selected-printer operation blocked");
    assert_eq!(report.lines, ["Wait."]);
}

#[test]
fn outcomes_keep_their_cleanup_and_traffic() {
    let outcome: SelectedUsbSessionOutcome<u8> = SelectedUsbSessionOutcome::not_opened("no device");
    assert_eq!(
        outcome.operation.unwrap_err(),
        "could not open selected USB interface: no device"
    );
    assert_eq!(outcome.cleanup, UsbSessionCleanup::not_attempted());
    assert!(outcome.events.is_empty());
    let outcome = SelectedUsbSessionOutcome::completed(
        Ok(7u8),
        Ok(()),
        Some("busy".to_owned()),
        vec![TransportEvent::Tx(vec![1])],
    );
    assert_eq!(outcome.operation.unwrap(), 7);
    assert_eq!(outcome.cleanup.d4_shutdown, UsbCleanupStatus::Succeeded);
    assert_eq!(
        outcome.cleanup.usb_close,
        UsbCleanupStatus::Failed("busy".to_owned())
    );
    assert_eq!(outcome.events.len(), 1);
}

#[test]
fn a_record_holds_the_transfers_that_succeeded() {
    let mut script = TranscriptTransport::new();
    script.expect_write(vec![1, 2]);
    script.respond(&[3]);
    script.respond(&[]);
    let mut transport = RecordingTransport::new(script);
    assert!(transport.write_all(&[1, 2]).is_ok());
    assert_eq!(transport.read(8).unwrap(), vec![3]);
    assert_eq!(transport.read(8).unwrap(), Vec::<u8>::new());
    assert!(transport.write_all(&[4]).is_err());
    assert!(transport.read(8).is_err());
    let (_, events) = transport.into_parts();
    assert_eq!(
        events,
        vec![
            TransportEvent::Tx(vec![1, 2]),
            TransportEvent::Rx(vec![3]),
            TransportEvent::Rx(vec![]),
        ]
    );
}

#[test]
fn no_record_is_kept_unless_it_is_asked_for() {
    let mut script = TranscriptTransport::new();
    script.respond(&[3]);
    let mut transport = RecordingTransport::new_with_recording(script, false);
    assert_eq!(transport.read(8).unwrap(), vec![3]);
    assert!(transport.into_parts().1.is_empty());
}

#[test]
fn an_unopened_stock_driver_interface_is_named() {
    let outcome: SelectedUsbSessionOutcome<u8> =
        SelectedUsbSessionOutcome::native_not_opened("no device");
    assert_eq!(
        outcome.operation.unwrap_err(),
        "could not open selected Windows stock-driver interface: no device"
    );
    assert_eq!(outcome.cleanup, UsbSessionCleanup::not_attempted());
}

#[test]
fn a_plan_without_a_saved_backup_sends_nothing() {
    let mut target = TranscriptTransport::new();
    expect_setup(&mut target);
    let mut session = connect(target, small_spec());
    let plan = EepromWritePlan {
        backup: EepromImage {
            model: "C90".to_owned(),
            start_address: 0x0c,
            bytes: vec![1, 2],
        },
        updates: vec![(0x0c, 1)],
    };
    assert_eq!(
        apply_saved_plan(&mut session, &plan, Err("disk full".to_owned()), "failed: ").unwrap_err(),
        "disk full"
    );
    session.into_transport().assert_finished();
}

#[test]
fn a_failed_setup_tells_what_became_of_the_session() {
    let outcome: SelectedUsbSessionOutcome<u8> = SelectedUsbSessionOutcome::setup_failed(
        &ApplicationError::SetupRecovered {
            setup: D4Error::UnexpectedEof,
        },
        None,
        vec![],
    );
    assert!(outcome
        .operation
        .unwrap_err()
        .starts_with("Epson D4 session setup failed: "));
    assert_eq!(outcome.cleanup, succeeded());
    let outcome: SelectedUsbSessionOutcome<u8> =
        SelectedUsbSessionOutcome::setup_failed(&ApplicationError::EntryReplyMissing, None, vec![]);
    assert_eq!(outcome.cleanup.d4_shutdown, UsbCleanupStatus::NotAttempted);
}

#[test]
fn a_recorded_session_holds_all_of_its_transfers() {
    let mut target = TranscriptTransport::new();
    expect_setup(&mut target);
    expect_request(&mut target, encode_command(*b"st", &[1]).unwrap(), b"status");
    expect_shutdown(&mut target, 0, 0);
    let expected: Vec<TransportEvent> = target
        .steps
        .iter()
        .map(|step| match step {
            Step::Write(bytes) => TransportEvent::Tx(bytes.clone()),
            Step::Read(bytes) => TransportEvent::Rx(bytes.clone()),
        })
        .collect();
    let recording = RecordingTransport::new(target);
    let mut session = match EpsonD4Session::connect(recording, spec()) {
        Ok(session) => session,
        Err(error) => panic!("{}", error.message()),
    };
    assert_eq!(session.read_status().ok().unwrap(), b"status");
    assert!(session.shutdown().is_ok());
    let (target, events) = session.into_transport().into_parts();
    target.assert_finished();
    assert_eq!(events, expected);
}

/// A transport that notes how much is asked for in each read.
struct Limits {
    inner: TranscriptTransport,
    asked: Vec<usize>,
}

impl ByteTransport for Limits {
    fn write_all(&mut self, bytes: &[u8]) -> Result<(), TransportError> {
        self.inner.write_all(bytes)
    }

    fn read(&mut self, limit: usize) -> Result<Vec<u8>, TransportError> {
        self.asked.push(limit);
        self.inner.read(limit)
    }
}

#[test]
fn reads_ask_for_as_much_as_a_reply_may_take() {
    let mut target = TranscriptTransport::new();
    expect_setup(&mut target);
    let limits = Limits { inner: target, asked: Vec::new() };
    let session = match EpsonD4Session::connect(RecordingTransport::new(limits), spec()) {
        Ok(session) => session,
        Err(error) => panic!("{}", error.message()),
    };
    let (limits, events) = session.into_transport().into_parts();
    let reads = events
        .iter()
        .filter(|event| matches!(event, TransportEvent::Rx(_)))
        .count();
    assert_eq!(limits.asked.len(), reads);
    assert_eq!(limits.asked[..2], [256, 256]);
    assert!(limits.asked[2..].iter().all(|limit| *limit == 4096));
    assert!(reads > 2);
}
